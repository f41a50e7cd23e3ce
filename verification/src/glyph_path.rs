//! An outline with what each of its segments needs for quick distance bounds.

use vstd::prelude::*;

use crate::geometry;
use crate::geometry::{Line, PathSeg, Point, Rect};

verus! {

/// A segment with its control box, the corners of the box and the edges
/// between them.
#[derive(Debug, Clone, Copy)]
pub struct PrecomputedSegment {
    pub segment: PathSeg,
    pub control_box: Rect,
    pub corners: [Point; 4],
    pub lines: [Line; 4],
}

impl PrecomputedSegment {
    /// What `new` derives from a segment.
    pub open spec fn spec_new(segment: PathSeg) -> PrecomputedSegment {
        PrecomputedSegment {
            segment,
            control_box: geometry::spec_control_box(segment),
            corners: geometry::spec_corners(geometry::spec_control_box(segment)),
            lines: geometry::spec_lines(
                geometry::spec_corners(geometry::spec_control_box(segment)),
            ),
        }
    }

    /// Every field is what `new` derives from `segment`.
    pub open spec fn wf(self) -> bool {
        self == Self::spec_new(self.segment)
    }

    /// Derives the control box of `segment`, its corners and its edges.
    pub fn new(segment: PathSeg) -> (precomp: PrecomputedSegment)
        ensures
            precomp == Self::spec_new(segment),
            precomp.wf(),
    {
        let control_box = geometry::control_box(segment);
        let corners = geometry::corners(control_box);
        let lines = geometry::lines(corners);
        PrecomputedSegment { segment, control_box, corners, lines }
    }
}

/// An outline: its segments in drawing order, and the same segments with
/// their boxes precomputed.
#[derive(Debug, Clone)]
pub struct GlyphPath {
    pub path: Vec<PathSeg>,
    pub segments: Vec<PrecomputedSegment>,
}

impl GlyphPath {
    /// `segments` holds, in order, what is derived from each segment of
    /// `path`.
    pub open spec fn wf(&self) -> bool {
        &&& self.segments@.len() == self.path@.len()
        &&& forall|i: int|
            0 <= i < self.path@.len() ==> #[trigger] self.segments@[i]
                == PrecomputedSegment::spec_new(self.path@[i])
    }

    /// Precomputes every segment of `path`.
    pub fn new(path: Vec<PathSeg>) -> (glyph: GlyphPath)
        ensures
            glyph.path@ == path@,
            glyph.wf(),
    {
        let mut segments: Vec<PrecomputedSegment> = Vec::with_capacity(path.len());
        let mut i: usize = 0;
        while i < path.len()
            invariant
                i <= path.len(),
                segments@.len() == i,
                forall|k: int|
                    0 <= k < i ==> #[trigger] segments@[k] == PrecomputedSegment::spec_new(
                        path@[k],
                    ),
            decreases path.len() - i,
        {
            segments.push(PrecomputedSegment::new(path[i]));
            i += 1;
        }
        GlyphPath { path, segments }
    }

    /// Whether the outline has no segment at all.
    pub fn is_empty(&self) -> (empty: bool)
        ensures
            empty == (self.path@.len() == 0),
    {
        self.path.len() == 0
    }
}

} // verus!
