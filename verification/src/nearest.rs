//! The nearest-point query: which segments of an outline can hold the point
//! nearest to a given one, told from their control boxes alone, and which of
//! the points then found on them is the nearest.

use vstd::prelude::*;

use crate::geometry;
use crate::geometry::Point;
use crate::glyph_path::{GlyphPath, PrecomputedSegment};

verus! {

/// Between which squared distances the point of a segment nearest to some
/// point must lie.
#[derive(Debug, Clone, Copy)]
pub struct PotentialNearness {
    pub min_dst_sq: u128,
    pub max_dst_sq: u128,
    pub precomp: PrecomputedSegment,
}

impl PotentialNearness {
    /// The bounds that the control box of `segment` gives for `p`: at least
    /// as far as the box, at most as far as its farthest corner.
    pub open spec fn spec_new(p: Point, segment: PrecomputedSegment) -> PotentialNearness {
        PotentialNearness {
            min_dst_sq: segment.control_box.least_dist_sq(p) as u128,
            max_dst_sq: segment.control_box.greatest_dist_sq(p) as u128,
            precomp: segment,
        }
    }

    /// `self` is nearer at its worst than `other` at its best.
    pub open spec fn spec_closer(self, other: PotentialNearness) -> bool {
        self.max_dst_sq < other.min_dst_sq
    }

    /// Neither of the two is nearer at its worst than the other at its best.
    pub open spec fn spec_intersects(self, other: PotentialNearness) -> bool {
        self.max_dst_sq >= other.min_dst_sq && self.min_dst_sq <= other.max_dst_sq
    }

    /// Bounds the distance from `p` to `segment` by its control box.
    pub fn new(p: Point, segment: PrecomputedSegment) -> (nearness: PotentialNearness)
        requires
            segment.wf(),
        ensures
            nearness == Self::spec_new(p, segment),
            nearness.min_dst_sq <= nearness.max_dst_sq,
    {
        let corners = segment.corners;
        let max_dst_sq = larger(
            larger(p.distance_squared(corners[0]), p.distance_squared(corners[1])),
            larger(p.distance_squared(corners[2]), p.distance_squared(corners[3])),
        );
        let mut min_dst_sq: u128 = 0;
        if !segment.control_box.contains(p) {
            let lines = segment.lines;
            min_dst_sq = smaller(
                smaller(lines[0].distance_squared_to(p), lines[1].distance_squared_to(p)),
                smaller(lines[2].distance_squared_to(p), lines[3].distance_squared_to(p)),
            );
        }
        proof {
            let r = segment.control_box;
            geometry::farthest_corner(r, p);
            if r.spec_contains(p) {
                assert(r.least_dist_sq(p) == 0);
            } else {
                geometry::nearest_edge(r, p);
            }
            geometry::rect_distances_fit(r, p);
        }
        PotentialNearness { min_dst_sq, max_dst_sq, precomp: segment }
    }

    /// Whether `self` is nearer at its worst than `other` at its best.
    pub fn closer(&self, other: PotentialNearness) -> (b: bool)
        ensures
            b == self.spec_closer(other),
    {
        self.max_dst_sq < other.min_dst_sq
    }

    /// Whether neither is nearer at its worst than the other at its best.
    pub fn intersects(&self, other: PotentialNearness) -> (b: bool)
        ensures
            b == self.spec_intersects(other),
    {
        self.max_dst_sq >= other.min_dst_sq && self.min_dst_sq <= other.max_dst_sq
    }
}

fn larger(a: u128, b: u128) -> (m: u128)
    ensures
        m == geometry::greater(a as int, b as int),
{
    if a >= b {
        a
    } else {
        b
    }
}

fn smaller(a: u128, b: u128) -> (m: u128)
    ensures
        m == geometry::lesser(a as int, b as int),
{
    if a <= b {
        a
    } else {
        b
    }
}

/// Whether some member of `all` is nearer at its worst than `n` at its best,
/// so that `n` cannot hold the nearest point.
pub open spec fn beaten(all: Seq<PotentialNearness>, n: PotentialNearness) -> bool {
    exists|j: int| 0 <= j < all.len() && (#[trigger] all[j]).spec_closer(n)
}

/// The members of `among`, in their order, that no member of `all` beats.
pub open spec fn unbeaten(all: Seq<PotentialNearness>, among: Seq<PotentialNearness>) -> Seq<
    PotentialNearness,
>
    decreases among.len(),
{
    if among.len() == 0 {
        Seq::empty()
    } else if beaten(all, among.last()) {
        unbeaten(all, among.drop_last())
    } else {
        unbeaten(all, among.drop_last()).push(among.last())
    }
}

/// The bounds that still can hold the nearest point: those that none of the
/// others beats.
pub open spec fn candidates(bounds: Seq<PotentialNearness>) -> Seq<PotentialNearness> {
    unbeaten(bounds, bounds)
}

/// The bounds that each of `segments`, in order, gives for `p`.
pub open spec fn bounds_of(p: Point, segments: Seq<PrecomputedSegment>) -> Seq<PotentialNearness> {
    Seq::new(segments.len(), |i: int| PotentialNearness::spec_new(p, segments[i]))
}

/// Every bound has its least distance at or below its greatest.
pub open spec fn ordered(bounds: Seq<PotentialNearness>) -> bool {
    forall|j: int| 0 <= j < bounds.len() ==> (#[trigger] bounds[j]).min_dst_sq <= bounds[j].max_dst_sq
}

/// The members of `kept`, in their order, whose bounds overlap those of `n`.
spec fn retained(kept: Seq<PotentialNearness>, n: PotentialNearness) -> Seq<PotentialNearness>
    decreases kept.len(),
{
    if kept.len() == 0 {
        Seq::empty()
    } else if kept.last().spec_intersects(n) {
        retained(kept.drop_last(), n).push(kept.last())
    } else {
        retained(kept.drop_last(), n)
    }
}

/// What `unbeaten` holds: the members of `among` that `all` does not beat.
pub proof fn unbeaten_holds(
    all: Seq<PotentialNearness>,
    among: Seq<PotentialNearness>,
    c: PotentialNearness,
)
    ensures
        unbeaten(all, among).contains(c) <==> among.contains(c) && !beaten(all, c),
    decreases among.len(),
{
    if among.len() > 0 {
        let front = among.drop_last();
        unbeaten_holds(all, front, c);
        if among.contains(c) && !front.contains(c) {
            let k = choose|k: int| 0 <= k < among.len() && among[k] == c;
            if k < among.len() - 1 {
                assert(front[k] == c);
            }
        }
        if front.contains(c) {
            let k = choose|k: int| 0 <= k < front.len() && front[k] == c;
            assert(among[k] == c);
        }
        if !beaten(all, among.last()) {
            let shorter = unbeaten(all, front);
            let longer = shorter.push(among.last());
            if shorter.contains(c) {
                let k = choose|k: int| 0 <= k < shorter.len() && shorter[k] == c;
                assert(longer[k] == c);
            }
            assert(longer[longer.len() - 1] == among.last());
            assert(among[among.len() - 1] == among.last());
        }
    }
}

proof fn unbeaten_by_either(
    first: Seq<PotentialNearness>,
    second: Seq<PotentialNearness>,
    among: Seq<PotentialNearness>,
)
    requires
        forall|k: int|
            0 <= k < among.len() ==> beaten(first, #[trigger] among[k]) == beaten(second, among[k]),
    ensures
        unbeaten(first, among) == unbeaten(second, among),
    decreases among.len(),
{
    if among.len() > 0 {
        let front = among.drop_last();
        assert forall|k: int| 0 <= k < front.len() implies beaten(first, #[trigger] front[k])
            == beaten(second, front[k]) by {
            assert(front[k] == among[k]);
        }
        unbeaten_by_either(first, second, front);
        assert(among.last() == among[among.len() - 1]);
    }
}

proof fn beaten_by_one_more(all: Seq<PotentialNearness>, n: PotentialNearness, c: PotentialNearness)
    ensures
        beaten(all.push(n), c) == (beaten(all, c) || n.spec_closer(c)),
{
    let more = all.push(n);
    if beaten(all, c) {
        let j = choose|j: int| 0 <= j < all.len() && (#[trigger] all[j]).spec_closer(c);
        assert(more[j].spec_closer(c));
    }
    if n.spec_closer(c) {
        assert(more[all.len() as int].spec_closer(c));
    }
    if beaten(more, c) {
        let j = choose|j: int| 0 <= j < more.len() && (#[trigger] more[j]).spec_closer(c);
        if j < all.len() {
            assert(all[j].spec_closer(c));
        }
    }
}

proof fn retained_are_unbeaten(
    all: Seq<PotentialNearness>,
    among: Seq<PotentialNearness>,
    n: PotentialNearness,
)
    requires
        forall|k: int| 0 <= k < among.len() ==> !(#[trigger] among[k]).spec_closer(n),
    ensures
        retained(unbeaten(all, among), n) == unbeaten(all.push(n), among),
    decreases among.len(),
{
    if among.len() > 0 {
        let front = among.drop_last();
        let last = among.last();
        assert forall|k: int| 0 <= k < front.len() implies !(#[trigger] front[k]).spec_closer(
            n,
        ) by {
            assert(front[k] == among[k]);
        }
        retained_are_unbeaten(all, front, n);
        beaten_by_one_more(all, n, last);
        assert(last == among[among.len() - 1]);
        if !beaten(all, last) {
            let kept = unbeaten(all, front).push(last);
            assert(kept.drop_last() == unbeaten(all, front));
            assert(kept.last() == last);
        }
    }
}

/// The index of a member of `bounds` whose greatest distance is least.
spec fn least_reach(bounds: Seq<PotentialNearness>) -> int
    decreases bounds.len(),
{
    if bounds.len() <= 1 {
        0
    } else {
        let k = least_reach(bounds.drop_last());
        if bounds.last().max_dst_sq < bounds[k].max_dst_sq {
            bounds.len() - 1
        } else {
            k
        }
    }
}

proof fn least_reach_is_least(bounds: Seq<PotentialNearness>)
    requires
        bounds.len() > 0,
    ensures
        0 <= least_reach(bounds) < bounds.len(),
        forall|j: int|
            0 <= j < bounds.len() ==> bounds[least_reach(bounds)].max_dst_sq <= (
            #[trigger] bounds[j]).max_dst_sq,
    decreases bounds.len(),
{
    if bounds.len() > 1 {
        let front = bounds.drop_last();
        least_reach_is_least(front);
        assert forall|j: int| 0 <= j < bounds.len() implies bounds[least_reach(
            bounds,
        )].max_dst_sq <= (#[trigger] bounds[j]).max_dst_sq by {
            if j < front.len() {
                assert(front[j] == bounds[j]);
            }
            assert(front[least_reach(front)] == bounds[least_reach(front)]);
        }
    }
}

/// Whatever is beaten is beaten by a candidate.
pub proof fn beaten_by_a_candidate(bounds: Seq<PotentialNearness>, n: PotentialNearness)
    requires
        ordered(bounds),
        beaten(bounds, n),
    ensures
        exists|k: int|
            0 <= k < candidates(bounds).len() && (#[trigger] candidates(bounds)[k]).spec_closer(n),
{
    let j = choose|j: int| 0 <= j < bounds.len() && (#[trigger] bounds[j]).spec_closer(n);
    least_reach_is_least(bounds);
    let best = bounds[least_reach(bounds)];
    assert(best.max_dst_sq <= bounds[j].max_dst_sq);
    if beaten(bounds, best) {
        let i = choose|i: int| 0 <= i < bounds.len() && (#[trigger] bounds[i]).spec_closer(best);
        assert(best.max_dst_sq <= bounds[i].max_dst_sq);
    }
    unbeaten_holds(bounds, bounds, best);
    assert(bounds.contains(best));
    let k = choose|k: int| 0 <= k < candidates(bounds).len() && candidates(bounds)[k] == best;
    assert(candidates(bounds)[k].spec_closer(n));
}

proof fn bounds_are_ordered(p: Point, segments: Seq<PrecomputedSegment>)
    requires
        forall|i: int| 0 <= i < segments.len() ==> (#[trigger] segments[i]).wf(),
    ensures
        ordered(bounds_of(p, segments)),
{
    assert forall|j: int| 0 <= j < segments.len() implies (#[trigger] bounds_of(
        p,
        segments,
    )[j]).min_dst_sq <= bounds_of(p, segments)[j].max_dst_sq by {
        geometry::rect_distances_fit(segments[j].control_box, p);
    }
}

/// Whether any of `kept` is nearer at its worst than `n` at its best.
fn any_closer(kept: &Vec<PotentialNearness>, n: PotentialNearness) -> (found: bool)
    ensures
        found == beaten(kept@, n),
{
    let mut k: usize = 0;
    while k < kept.len()
        invariant
            k <= kept.len(),
            forall|j: int| 0 <= j < k ==> !(#[trigger] kept@[j]).spec_closer(n),
        decreases kept.len() - k,
    {
        if kept[k].closer(n) {
            return true;
        }
        k += 1;
    }
    false
}

/// Drops from `kept` every member whose bounds do not overlap those of `n`.
fn retain_intersecting(kept: &mut Vec<PotentialNearness>, n: PotentialNearness)
    ensures
        final(kept)@ == retained(old(kept)@, n),
{
    let ghost before = kept@;
    let mut stay: usize = 0;
    let mut k: usize = 0;
    while k < kept.len()
        invariant
            stay <= k <= kept.len(),
            kept@.len() == before.len(),
            kept@.take(stay as int) == retained(before.take(k as int), n),
            kept@.skip(k as int) == before.skip(k as int),
        decreases kept.len() - k,
    {
        let c = kept[k];
        proof {
            assert(kept@.skip(k as int)[0] == before.skip(k as int)[0]);
            let upto = before.take(k + 1);
            assert(upto.drop_last() == before.take(k as int));
            assert(upto.last() == c);
        }
        if c.intersects(n) {
            let ghost earlier = kept@;
            kept.set(stay, c);
            proof {
                assert(kept@.take(stay + 1) == earlier.take(stay as int).push(c));
                assert(kept@.skip(k + 1) == earlier.skip(k as int).skip(1));
                assert(before.skip(k + 1) == before.skip(k as int).skip(1));
            }
            stay += 1;
        } else {
            proof {
                assert(kept@.skip(k + 1) == kept@.skip(k as int).skip(1));
                assert(before.skip(k + 1) == before.skip(k as int).skip(1));
            }
        }
        k += 1;
    }
    proof {
        assert(before.take(k as int) == before);
    }
    kept.truncate(stay);
    proof {
        assert(kept@ == retained(before, n));
    }
}

/// Leaves in `scratch`, whatever it held, the segments of `other` that can
/// hold the point nearest to `p`: those whose control box is not farther from
/// `p` than the farthest corner of another's. They stand in the order of the
/// outline, each with its bounds.
pub fn nearest_candidates(scratch: &mut Vec<PotentialNearness>, p: Point, other: &GlyphPath)
    requires
        other.wf(),
    ensures
        final(scratch)@ == candidates(bounds_of(p, other.segments@)),
        other.segments@.len() > 0 ==> final(scratch)@.len() > 0,
{
    let ghost bounds = bounds_of(p, other.segments@);
    proof {
        assert forall|i: int| 0 <= i < other.segments@.len() implies (
        #[trigger] other.segments@[i]).wf() by {}
        bounds_are_ordered(p, other.segments@);
    }
    scratch.clear();
    let mut i: usize = 0;
    while i < other.segments.len()
        invariant
            i <= other.segments@.len(),
            other.wf(),
            bounds == bounds_of(p, other.segments@),
            ordered(bounds),
            scratch@ == candidates(bounds.take(i as int)),
            i > 0 ==> scratch@.len() > 0,
        decreases other.segments@.len() - i,
    {
        let nearness = PotentialNearness::new(p, other.segments[i]);
        let ghost seen = bounds.take(i as int);
        let ghost more = bounds.take(i + 1);
        proof {
            assert(nearness == bounds[i as int]);
            assert(more == seen.push(nearness));
            assert(more.drop_last() == seen);
            assert(more.last() == nearness);
            assert forall|j: int| 0 <= j < seen.len() implies (#[trigger] seen[j]).min_dst_sq
                <= seen[j].max_dst_sq by {
                assert(seen[j] == bounds[j]);
            }
        }
        if any_closer(scratch, nearness) {
            proof {
                let k = choose|k: int|
                    0 <= k < scratch@.len() && (#[trigger] scratch@[k]).spec_closer(nearness);
                let c = scratch@[k];
                unbeaten_holds(seen, seen, c);
                assert(scratch@.contains(c));
                let j = choose|j: int| 0 <= j < seen.len() && seen[j] == c;
                assert(seen[j].spec_closer(nearness));
                assert(beaten(seen, nearness));
                beaten_by_one_more(seen, nearness, nearness);
                assert forall|m: int| 0 <= m < seen.len() implies beaten(seen, #[trigger] seen[m])
                    == beaten(more, seen[m]) by {
                    beaten_by_one_more(seen, nearness, seen[m]);
                }
                unbeaten_by_either(seen, more, seen);
            }
        } else {
            proof {
                if beaten(seen, nearness) {
                    beaten_by_a_candidate(seen, nearness);
                }
                assert forall|m: int| 0 <= m < seen.len() implies !(#[trigger] seen[m]).spec_closer(
                    nearness,
                ) by {}
                retained_are_unbeaten(seen, seen, nearness);
                beaten_by_one_more(seen, nearness, nearness);
            }
            retain_intersecting(scratch, nearness);
            scratch.push(nearness);
        }
        i += 1;
    }
    proof {
        assert(bounds.take(i as int) == bounds);
    }
}

/// A point found on a segment and its squared distance from the point asked
/// about.
#[derive(Debug, Clone, Copy, PartialEq, Eq, Structural)]
pub struct Nearest {
    pub distance_sq: u128,
    pub point: Point,
}

/// `found[k]` is as near as any of `found`, and nearer than all before it.
pub open spec fn first_nearest(found: Seq<Nearest>, k: int) -> bool {
    &&& 0 <= k < found.len()
    &&& forall|j: int| 0 <= j < found.len() ==> found[k].distance_sq <= (#[trigger] found[j]).distance_sq
    &&& forall|j: int| 0 <= j < k ==> (#[trigger] found[j]).distance_sq > found[k].distance_sq
}

/// The nearest of the points found, the first of them where several are
/// equally near.
pub fn closest(found: &Vec<Nearest>) -> (best: Point)
    requires
        found@.len() > 0,
    ensures
        exists|k: int| first_nearest(found@, k) && best == found@[k].point,
{
    let mut acc: Nearest = found[0];
    let ghost mut at: int = 0;
    let mut i: usize = 1;
    while i < found.len()
        invariant
            1 <= i <= found@.len(),
            0 <= at < i,
            acc == found@[at],
            forall|j: int| 0 <= j < i ==> acc.distance_sq <= (#[trigger] found@[j]).distance_sq,
            forall|j: int| 0 <= j < at ==> (#[trigger] found@[j]).distance_sq > acc.distance_sq,
        decreases found@.len() - i,
    {
        let e = found[i];
        if !(acc.distance_sq <= e.distance_sq) {
            acc = e;
            proof {
                at = i as int;
            }
        }
        i += 1;
    }
    proof {
        assert(first_nearest(found@, at));
    }
    acc.point
}

/// The index of the first least member of `dist`.
spec fn least_index(dist: Seq<int>) -> int
    decreases dist.len(),
{
    if dist.len() <= 1 {
        0
    } else {
        let k = least_index(dist.drop_last());
        if dist.last() < dist[k] {
            dist.len() - 1
        } else {
            k
        }
    }
}

proof fn least_index_is_least(dist: Seq<int>)
    requires
        dist.len() > 0,
    ensures
        0 <= least_index(dist) < dist.len(),
        forall|j: int| 0 <= j < dist.len() ==> dist[least_index(dist)] <= #[trigger] dist[j],
    decreases dist.len(),
{
    if dist.len() > 1 {
        let front = dist.drop_last();
        least_index_is_least(front);
        assert forall|j: int| 0 <= j < dist.len() implies dist[least_index(dist)]
            <= #[trigger] dist[j] by {
            if j < front.len() {
                assert(front[j] == dist[j]);
            }
            assert(front[least_index(front)] == dist[least_index(front)]);
        }
    }
}

/// Pruning never costs the nearest point. Let each segment have some squared
/// distance within its bounds, such as that of its truly nearest point. Then a
/// segment with the least of these distances is among the candidates, so the
/// least distance over the candidates is the least over all segments.
pub proof fn pruning_keeps_the_nearest(bounds: Seq<PotentialNearness>, dist: Seq<int>)
    requires
        bounds.len() == dist.len(),
        dist.len() > 0,
        forall|i: int|
            0 <= i < bounds.len() ==> (#[trigger] bounds[i]).min_dst_sq <= dist[i]
                <= bounds[i].max_dst_sq,
    ensures
        exists|k: int|
            0 <= k < bounds.len() && candidates(bounds).contains(#[trigger] bounds[k]) && forall|
                i: int,
            |
                0 <= i < dist.len() ==> dist[k] <= #[trigger] dist[i],
{
    least_index_is_least(dist);
    let k = least_index(dist);
    if beaten(bounds, bounds[k]) {
        let j = choose|j: int| 0 <= j < bounds.len() && (#[trigger] bounds[j]).spec_closer(bounds[k]);
        assert(dist[k] <= dist[j]);
    }
    unbeaten_holds(bounds, bounds, bounds[k]);
    assert(bounds.contains(bounds[k]));
}

/// The pruned query agrees with the exhaustive one. Take on every segment of
/// an outline a point within its control box, as the point of the segment
/// nearest to `p` is. Then the nearest to `p` of all these points lies on one
/// of the candidates that the control boxes leave for `p`.
pub proof fn pruned_agrees_with_exhaustive(
    p: Point,
    segments: Seq<PrecomputedSegment>,
    on_segment: Seq<Point>,
)
    requires
        segments.len() == on_segment.len(),
        segments.len() > 0,
        forall|i: int| 0 <= i < segments.len() ==> (#[trigger] segments[i]).wf(),
        forall|i: int|
            0 <= i < segments.len() ==> (#[trigger] segments[i]).control_box.holds(on_segment[i]),
    ensures
        exists|k: int|
            0 <= k < segments.len() && candidates(bounds_of(p, segments)).contains(
                #[trigger] bounds_of(p, segments)[k],
            ) && forall|i: int|
                0 <= i < segments.len() ==> geometry::dist_sq(p, on_segment[k])
                    <= geometry::dist_sq(p, #[trigger] on_segment[i]),
{
    let bounds = bounds_of(p, segments);
    let dist = Seq::new(segments.len(), |i: int| geometry::dist_sq(p, on_segment[i]));
    assert forall|i: int| 0 <= i < bounds.len() implies (#[trigger] bounds[i]).min_dst_sq <= dist[i]
        <= bounds[i].max_dst_sq by {
        let r = segments[i].control_box;
        geometry::rect_distances_fit(r, p);
        geometry::rect_bounds_every_point(r, p, on_segment[i]);
    }
    pruning_keeps_the_nearest(bounds, dist);
    let k = choose|k: int|
        0 <= k < bounds.len() && candidates(bounds).contains(#[trigger] bounds[k]) && forall|i: int|
            0 <= i < dist.len() ==> dist[k] <= #[trigger] dist[i];
    assert forall|i: int| 0 <= i < segments.len() implies geometry::dist_sq(p, on_segment[k])
        <= geometry::dist_sq(p, #[trigger] on_segment[i]) by {
        assert(dist[k] <= dist[i]);
    }
}

} // verus!
