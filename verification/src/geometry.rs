//! Points, segments and control boxes on the integer grid, and the exact
//! squared distances between them.

use vstd::prelude::*;

verus! {

/// A point of the grid.
#[derive(Debug, Clone, Copy, PartialEq, Eq, Structural)]
pub struct Point {
    pub x: i32,
    pub y: i32,
}

/// A straight segment from `p0` to `p1`.
#[derive(Debug, Clone, Copy, PartialEq, Eq, Structural)]
pub struct Line {
    pub p0: Point,
    pub p1: Point,
}

/// A quadratic Bézier segment with control point `p1`.
#[derive(Debug, Clone, Copy, PartialEq, Eq, Structural)]
pub struct QuadBez {
    pub p0: Point,
    pub p1: Point,
    pub p2: Point,
}

/// A cubic Bézier segment with control points `p1` and `p2`.
#[derive(Debug, Clone, Copy, PartialEq, Eq, Structural)]
pub struct CubicBez {
    pub p0: Point,
    pub p1: Point,
    pub p2: Point,
    pub p3: Point,
}

/// One piece of an outline.
#[derive(Debug, Clone, Copy, PartialEq, Eq, Structural)]
pub enum PathSeg {
    Line(Line),
    Quad(QuadBez),
    Cubic(CubicBez),
}

/// An axis-aligned rectangle; `x0 <= x1` and `y0 <= y1` where it is well
/// formed.
#[derive(Debug, Clone, Copy, PartialEq, Eq, Structural)]
pub struct Rect {
    pub x0: i32,
    pub y0: i32,
    pub x1: i32,
    pub y1: i32,
}

/// The smaller of two integers.
pub open spec fn lesser(a: int, b: int) -> int {
    if a <= b {
        a
    } else {
        b
    }
}

/// The larger of two integers.
pub open spec fn greater(a: int, b: int) -> int {
    if a >= b {
        a
    } else {
        b
    }
}

/// `a - b` without its sign.
pub open spec fn gap(a: int, b: int) -> int {
    if a >= b {
        a - b
    } else {
        b - a
    }
}

/// How far `v` lies outside the interval from `lo` to `hi`; zero inside.
pub open spec fn gap_to_interval(v: int, lo: int, hi: int) -> int {
    if v < lo {
        lo - v
    } else if v > hi {
        v - hi
    } else {
        0
    }
}

/// The squared distance between two points.
pub open spec fn dist_sq(a: Point, b: Point) -> int {
    (a.x - b.x) * (a.x - b.x) + (a.y - b.y) * (a.y - b.y)
}

fn min_coord(a: i32, b: i32) -> (m: i32)
    ensures
        m == lesser(a as int, b as int),
{
    if a <= b {
        a
    } else {
        b
    }
}

fn max_coord(a: i32, b: i32) -> (m: i32)
    ensures
        m == greater(a as int, b as int),
{
    if a >= b {
        a
    } else {
        b
    }
}

pub(crate) fn coord_gap(a: i32, b: i32) -> (d: u64)
    ensures
        d == gap(a as int, b as int),
        d <= 0xffff_ffff,
{
    if a >= b {
        ((a as i64) - (b as i64)) as u64
    } else {
        ((b as i64) - (a as i64)) as u64
    }
}

fn interval_gap(v: i32, a: i32, b: i32) -> (d: u64)
    ensures
        d == gap_to_interval(v as int, lesser(a as int, b as int), greater(a as int, b as int)),
        d <= 0xffff_ffff,
{
    let lo = min_coord(a, b);
    let hi = max_coord(a, b);
    if v < lo {
        coord_gap(lo, v)
    } else if v > hi {
        coord_gap(v, hi)
    } else {
        0
    }
}

pub(crate) fn sum_of_squares(dx: u64, dy: u64) -> (s: u128)
    requires
        dx <= 0xffff_ffff,
        dy <= 0xffff_ffff,
    ensures
        s == dx * dx + dy * dy,
{
    assert(dx * dx <= 0xffff_ffff * 0xffff_ffff) by (nonlinear_arith)
        requires
            0 <= dx <= 0xffff_ffff,
    ;
    assert(dy * dy <= 0xffff_ffff * 0xffff_ffff) by (nonlinear_arith)
        requires
            0 <= dy <= 0xffff_ffff,
    ;
    (dx as u128) * (dx as u128) + (dy as u128) * (dy as u128)
}

impl Point {
    /// The squared distance from `self` to `other`.
    pub fn distance_squared(self, other: Point) -> (d: u128)
        ensures
            d == dist_sq(self, other),
    {
        let dx = coord_gap(self.x, other.x);
        let dy = coord_gap(self.y, other.y);
        assert(dx * dx == (self.x - other.x) * (self.x - other.x)) by (nonlinear_arith)
            requires
                dx == gap(self.x as int, other.x as int),
        ;
        assert(dy * dy == (self.y - other.y) * (self.y - other.y)) by (nonlinear_arith)
            requires
                dy == gap(self.y as int, other.y as int),
        ;
        sum_of_squares(dx, dy)
    }
}

impl Line {
    /// Whether the segment runs along one of the axes.
    pub open spec fn axis_parallel(self) -> bool {
        self.p0.x == self.p1.x || self.p0.y == self.p1.y
    }

    /// The squared distance from `p` to the nearest point of an axis-parallel
    /// segment.
    pub open spec fn dist_sq_to(self, p: Point) -> int {
        if self.p0.x == self.p1.x {
            let across = p.x - self.p0.x;
            let along = gap_to_interval(
                p.y as int,
                lesser(self.p0.y as int, self.p1.y as int),
                greater(self.p0.y as int, self.p1.y as int),
            );
            across * across + along * along
        } else {
            let across = p.y - self.p0.y;
            let along = gap_to_interval(
                p.x as int,
                lesser(self.p0.x as int, self.p1.x as int),
                greater(self.p0.x as int, self.p1.x as int),
            );
            across * across + along * along
        }
    }

    /// The squared distance from `p` to the nearest point of the segment.
    pub fn distance_squared_to(self, p: Point) -> (d: u128)
        requires
            self.axis_parallel(),
        ensures
            d == self.dist_sq_to(p),
    {
        if self.p0.x == self.p1.x {
            let across = coord_gap(p.x, self.p0.x);
            let along = interval_gap(p.y, self.p0.y, self.p1.y);
            assert(across * across == (p.x - self.p0.x) * (p.x - self.p0.x)) by (nonlinear_arith)
                requires
                    across == gap(p.x as int, self.p0.x as int),
            ;
            sum_of_squares(across, along)
        } else {
            let across = coord_gap(p.y, self.p0.y);
            let along = interval_gap(p.x, self.p0.x, self.p1.x);
            assert(across * across == (p.y - self.p0.y) * (p.y - self.p0.y)) by (nonlinear_arith)
                requires
                    across == gap(p.y as int, self.p0.y as int),
            ;
            sum_of_squares(across, along)
        }
    }
}

impl Rect {
    /// `x0 <= x1` and `y0 <= y1`.
    pub open spec fn wf(self) -> bool {
        self.x0 <= self.x1 && self.y0 <= self.y1
    }

    /// Whether `p` lies in the rectangle, its border included.
    pub open spec fn holds(self, p: Point) -> bool {
        self.x0 <= p.x <= self.x1 && self.y0 <= p.y <= self.y1
    }

    /// Whether `p` lies in the rectangle, its low edges included and its high
    /// edges not.
    pub open spec fn spec_contains(self, p: Point) -> bool {
        self.x0 <= p.x < self.x1 && self.y0 <= p.y < self.y1
    }

    /// The squared distance from `p` to the nearest point of the rectangle;
    /// zero where the rectangle holds `p`.
    pub open spec fn least_dist_sq(self, p: Point) -> int {
        let dx = gap_to_interval(p.x as int, self.x0 as int, self.x1 as int);
        let dy = gap_to_interval(p.y as int, self.y0 as int, self.y1 as int);
        dx * dx + dy * dy
    }

    /// The squared distance from `p` to the corner farthest from it.
    pub open spec fn greatest_dist_sq(self, p: Point) -> int {
        let dx = greater(gap(p.x as int, self.x0 as int), gap(p.x as int, self.x1 as int));
        let dy = greater(gap(p.y as int, self.y0 as int), gap(p.y as int, self.y1 as int));
        dx * dx + dy * dy
    }

    /// The smallest rectangle that holds `p0` and `p1`.
    pub open spec fn spec_from_points(p0: Point, p1: Point) -> Rect {
        Rect {
            x0: lesser(p0.x as int, p1.x as int) as i32,
            y0: lesser(p0.y as int, p1.y as int) as i32,
            x1: greater(p0.x as int, p1.x as int) as i32,
            y1: greater(p0.y as int, p1.y as int) as i32,
        }
    }

    /// The rectangle grown just enough to hold `p`.
    pub open spec fn spec_union_pt(self, p: Point) -> Rect {
        Rect {
            x0: lesser(self.x0 as int, p.x as int) as i32,
            y0: lesser(self.y0 as int, p.y as int) as i32,
            x1: greater(self.x1 as int, p.x as int) as i32,
            y1: greater(self.y1 as int, p.y as int) as i32,
        }
    }

    /// The smallest rectangle that holds `p0` and `p1`.
    pub fn from_points(p0: Point, p1: Point) -> (r: Rect)
        ensures
            r == Self::spec_from_points(p0, p1),
            r.wf(),
    {
        Rect {
            x0: min_coord(p0.x, p1.x),
            y0: min_coord(p0.y, p1.y),
            x1: max_coord(p0.x, p1.x),
            y1: max_coord(p0.y, p1.y),
        }
    }

    /// The rectangle grown just enough to hold `p`.
    pub fn union_pt(self, p: Point) -> (r: Rect)
        ensures
            r == self.spec_union_pt(p),
            self.wf() ==> r.wf(),
    {
        Rect {
            x0: min_coord(self.x0, p.x),
            y0: min_coord(self.y0, p.y),
            x1: max_coord(self.x1, p.x),
            y1: max_coord(self.y1, p.y),
        }
    }

    /// Whether `p` lies in the rectangle, its low edges included and its high
    /// edges not.
    pub fn contains(self, p: Point) -> (inside: bool)
        ensures
            inside == self.spec_contains(p),
    {
        p.x >= self.x0 && p.x < self.x1 && p.y >= self.y0 && p.y < self.y1
    }
}

impl PathSeg {
    /// The points that define the segment: its ends and what lies between.
    pub open spec fn defining_points(self) -> Seq<Point> {
        match self {
            PathSeg::Line(l) => seq![l.p0, l.p1],
            PathSeg::Quad(q) => seq![q.p0, q.p1, q.p2],
            PathSeg::Cubic(c) => seq![c.p0, c.p1, c.p2, c.p3],
        }
    }
}

/// The control box of a segment: the smallest rectangle that holds its
/// defining points.
pub open spec fn spec_control_box(s: PathSeg) -> Rect {
    match s {
        PathSeg::Line(l) => Rect::spec_from_points(l.p0, l.p1),
        PathSeg::Quad(q) => Rect::spec_from_points(q.p0, q.p1).spec_union_pt(q.p2),
        PathSeg::Cubic(c) => Rect::spec_from_points(c.p0, c.p1).spec_union_pt(c.p2).spec_union_pt(
            c.p3,
        ),
    }
}

/// The control box of `s`.
pub fn control_box(s: PathSeg) -> (r: Rect)
    ensures
        r == spec_control_box(s),
        r.wf(),
{
    match s {
        PathSeg::Line(line) => Rect::from_points(line.p0, line.p1),
        PathSeg::Quad(quad) => Rect::from_points(quad.p0, quad.p1).union_pt(quad.p2),
        PathSeg::Cubic(cubic) => Rect::from_points(cubic.p0, cubic.p1).union_pt(
            cubic.p2,
        ).union_pt(cubic.p3),
    }
}

/// The control box is the tightest rectangle around the defining points: it
/// holds each of them, and every rectangle that holds them all holds it.
pub proof fn control_box_is_tight(s: PathSeg, other: Rect)
    ensures
        forall|i: int|
            0 <= i < s.defining_points().len() ==> spec_control_box(s).holds(
                #[trigger] s.defining_points()[i],
            ),
        (forall|i: int|
            0 <= i < s.defining_points().len() ==> other.holds(#[trigger] s.defining_points()[i]))
            ==> other.x0 <= spec_control_box(s).x0 && other.y0 <= spec_control_box(s).y0
            && spec_control_box(s).x1 <= other.x1 && spec_control_box(s).y1 <= other.y1,
{
    let pts = s.defining_points();
    if forall|i: int| 0 <= i < pts.len() ==> other.holds(#[trigger] pts[i]) {
        assert(other.holds(pts[0]));
        assert(other.holds(pts[1]));
        if pts.len() > 2 {
            assert(other.holds(pts[2]));
        }
        if pts.len() > 3 {
            assert(other.holds(pts[3]));
        }
    }
}

/// The four corners of `r`, going round it from `(x0, y0)`.
pub open spec fn spec_corners(r: Rect) -> [Point; 4] {
    [
        Point { x: r.x0, y: r.y0 },
        Point { x: r.x0, y: r.y1 },
        Point { x: r.x1, y: r.y1 },
        Point { x: r.x1, y: r.y0 },
    ]
}

/// The four corners of `r`, going round it from `(x0, y0)`.
pub fn corners(r: Rect) -> (c: [Point; 4])
    ensures
        c == spec_corners(r),
{
    [
        Point { x: r.x0, y: r.y0 },
        Point { x: r.x0, y: r.y1 },
        Point { x: r.x1, y: r.y1 },
        Point { x: r.x1, y: r.y0 },
    ]
}

/// The four segments that join each corner to the next, the last to the
/// first.
pub open spec fn spec_lines(corners: [Point; 4]) -> [Line; 4] {
    [
        Line { p0: corners[0], p1: corners[1] },
        Line { p0: corners[1], p1: corners[2] },
        Line { p0: corners[2], p1: corners[3] },
        Line { p0: corners[3], p1: corners[0] },
    ]
}

/// The four segments that join each corner to the next, the last to the
/// first.
pub fn lines(corners: [Point; 4]) -> (l: [Line; 4])
    ensures
        l == spec_lines(corners),
{
    [
        Line { p0: corners[0], p1: corners[1] },
        Line { p0: corners[1], p1: corners[2] },
        Line { p0: corners[2], p1: corners[3] },
        Line { p0: corners[3], p1: corners[0] },
    ]
}

/// The largest of the squared distances from `p` to four points.
pub open spec fn farthest_of(p: Point, pts: [Point; 4]) -> int {
    greater(
        greater(dist_sq(p, pts[0]), dist_sq(p, pts[1])),
        greater(dist_sq(p, pts[2]), dist_sq(p, pts[3])),
    )
}

/// The smallest of the squared distances from `p` to four axis-parallel
/// segments.
pub open spec fn nearest_of(p: Point, edges: [Line; 4]) -> int {
    lesser(
        lesser(edges[0].dist_sq_to(p), edges[1].dist_sq_to(p)),
        lesser(edges[2].dist_sq_to(p), edges[3].dist_sq_to(p)),
    )
}

proof fn square_grows(a: int, b: int)
    by (nonlinear_arith)
    requires
        0 <= a <= b,
    ensures
        a * a <= b * b,
{
}

proof fn square_of_gap(a: int, b: int)
    by (nonlinear_arith)
    ensures
        gap(a, b) * gap(a, b) == (a - b) * (a - b),
        gap(a, b) >= 0,
{
}

/// No point that a rectangle holds is nearer to `p` than the rectangle is,
/// and none is farther from `p` than the farthest corner.
pub proof fn rect_bounds_every_point(r: Rect, p: Point, q: Point)
    requires
        r.wf(),
        r.holds(q),
    ensures
        r.least_dist_sq(p) <= dist_sq(p, q) <= r.greatest_dist_sq(p),
{
    let (px, py, qx, qy) = (p.x as int, p.y as int, q.x as int, q.y as int);
    square_of_gap(px, qx);
    square_of_gap(py, qy);
    square_grows(gap_to_interval(px, r.x0 as int, r.x1 as int), gap(px, qx));
    square_grows(gap_to_interval(py, r.y0 as int, r.y1 as int), gap(py, qy));
    square_grows(gap(px, qx), greater(gap(px, r.x0 as int), gap(px, r.x1 as int)));
    square_grows(gap(py, qy), greater(gap(py, r.y0 as int), gap(py, r.y1 as int)));
}

/// Both distances from a point to a rectangle are squares of gaps between
/// coordinates, and so fit well within 128 bits.
pub proof fn rect_distances_fit(r: Rect, p: Point)
    requires
        r.wf(),
    ensures
        0 <= r.least_dist_sq(p) <= r.greatest_dist_sq(p) <= 0x2_0000_0000_0000_0000,
{
    rect_bounds_every_point(r, p, Point { x: r.x0, y: r.y0 });
    let gx = gap_to_interval(p.x as int, r.x0 as int, r.x1 as int);
    let gy = gap_to_interval(p.y as int, r.y0 as int, r.y1 as int);
    square_grows(0, gx);
    square_grows(0, gy);
    let dx = greater(gap(p.x as int, r.x0 as int), gap(p.x as int, r.x1 as int));
    let dy = greater(gap(p.y as int, r.y0 as int), gap(p.y as int, r.y1 as int));
    square_grows(dx, 0x1_0000_0000);
    square_grows(dy, 0x1_0000_0000);
}

/// The farthest of the four corners lies at the rectangle's greatest
/// distance.
pub proof fn farthest_corner(r: Rect, p: Point)
    requires
        r.wf(),
    ensures
        farthest_of(p, spec_corners(r)) == r.greatest_dist_sq(p),
{
    let (px, py) = (p.x as int, p.y as int);
    let (x0, y0, x1, y1) = (r.x0 as int, r.y0 as int, r.x1 as int, r.y1 as int);
    square_of_gap(px, x0);
    square_of_gap(px, x1);
    square_of_gap(py, y0);
    square_of_gap(py, y1);
    if gap(px, x0) <= gap(px, x1) {
        square_grows(gap(px, x0), gap(px, x1));
    } else {
        square_grows(gap(px, x1), gap(px, x0));
    }
    if gap(py, y0) <= gap(py, y1) {
        square_grows(gap(py, y0), gap(py, y1));
    } else {
        square_grows(gap(py, y1), gap(py, y0));
    }
}

/// Seen from a point that the rectangle does not contain, the nearest of the
/// four edges lies at the rectangle's least distance.
pub proof fn nearest_edge(r: Rect, p: Point)
    requires
        r.wf(),
        !r.spec_contains(p),
    ensures
        nearest_of(p, spec_lines(spec_corners(r))) == r.least_dist_sq(p),
{
    let (px, py) = (p.x as int, p.y as int);
    let (x0, y0, x1, y1) = (r.x0 as int, r.y0 as int, r.x1 as int, r.y1 as int);
    let gx = gap_to_interval(px, x0, x1);
    let gy = gap_to_interval(py, y0, y1);
    square_of_gap(px, x0);
    square_of_gap(px, x1);
    square_of_gap(py, y0);
    square_of_gap(py, y1);
    square_grows(gx, gap(px, x0));
    square_grows(gx, gap(px, x1));
    square_grows(gy, gap(py, y0));
    square_grows(gy, gap(py, y1));
    let edges = spec_lines(spec_corners(r));
    assert(edges[0].dist_sq_to(p) == (px - x0) * (px - x0) + gy * gy);
    assert(edges[2].dist_sq_to(p) == (px - x1) * (px - x1) + gy * gy);
    assert(edges[1].dist_sq_to(p) >= gx * gx + gy * gy);
    assert(edges[3].dist_sq_to(p) >= gx * gx + gy * gy);
    if px < x0 || px >= x1 {
    } else if py < y0 {
        assert(edges[3].dist_sq_to(p) == gx * gx + gy * gy);
    } else {
        assert(edges[1].dist_sq_to(p) == gx * gx + gy * gy);
    }
}

} // verus!
