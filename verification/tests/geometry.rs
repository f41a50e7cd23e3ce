use find_dups::geometry::{
    control_box, corners, lines, CubicBez, Line, PathSeg, Point, QuadBez, Rect,
};
use find_dups::glyph_path::{GlyphPath, PrecomputedSegment};

fn pt(x: i32, y: i32) -> Point {
    Point { x, y }
}

#[test]
fn squared_distances_are_exact() {
    assert_eq!(pt(0, 0).distance_squared(pt(3, 4)), 25);
    assert_eq!(pt(3, 4).distance_squared(pt(0, 0)), 25);
    assert_eq!(pt(-7, 2).distance_squared(pt(-7, 2)), 0);
    assert_eq!(
        pt(i32::MIN, i32::MIN).distance_squared(pt(i32::MAX, i32::MAX)),
        2 * (u32::MAX as u128) * (u32::MAX as u128)
    );
}

#[test]
fn a_rectangle_from_two_points_is_well_formed() {
    let r = Rect::from_points(pt(5, -1), pt(-2, 7));
    assert_eq!(r, Rect { x0: -2, y0: -1, x1: 5, y1: 7 });
    assert_eq!(Rect::from_points(pt(1, 1), pt(1, 1)), Rect { x0: 1, y0: 1, x1: 1, y1: 1 });
}

#[test]
fn a_rectangle_grows_to_hold_a_point() {
    let r = Rect { x0: 0, y0: 0, x1: 4, y1: 4 };
    assert_eq!(r.union_pt(pt(2, 2)), r);
    assert_eq!(r.union_pt(pt(-3, 9)), Rect { x0: -3, y0: 0, x1: 4, y1: 9 });
    assert_eq!(r.union_pt(pt(6, -1)), Rect { x0: 0, y0: -1, x1: 6, y1: 4 });
}

#[test]
fn a_rectangle_contains_its_low_edges_only() {
    let r = Rect { x0: 0, y0: 0, x1: 4, y1: 3 };
    assert!(r.contains(pt(0, 0)));
    assert!(r.contains(pt(3, 2)));
    assert!(!r.contains(pt(4, 2)));
    assert!(!r.contains(pt(3, 3)));
    assert!(!r.contains(pt(-1, 0)));
    assert!(!Rect { x0: 1, y0: 1, x1: 1, y1: 5 }.contains(pt(1, 2)));
}

#[test]
fn the_control_box_holds_the_defining_points() {
    let line = PathSeg::Line(Line { p0: pt(3, 8), p1: pt(1, 2) });
    assert_eq!(control_box(line), Rect { x0: 1, y0: 2, x1: 3, y1: 8 });
    let quad = PathSeg::Quad(QuadBez { p0: pt(0, 0), p1: pt(5, 10), p2: pt(10, 0) });
    assert_eq!(control_box(quad), Rect { x0: 0, y0: 0, x1: 10, y1: 10 });
    let cubic = PathSeg::Cubic(CubicBez {
        p0: pt(0, 0),
        p1: pt(-4, 3),
        p2: pt(12, -6),
        p3: pt(8, 1),
    });
    assert_eq!(control_box(cubic), Rect { x0: -4, y0: -6, x1: 12, y1: 3 });
}

#[test]
fn corners_go_round_the_rectangle() {
    let r = Rect { x0: 1, y0: 2, x1: 3, y1: 4 };
    assert_eq!(corners(r), [pt(1, 2), pt(1, 4), pt(3, 4), pt(3, 2)]);
}

#[test]
fn lines_join_each_corner_to_the_next() {
    let c = corners(Rect { x0: 1, y0: 2, x1: 3, y1: 4 });
    let l = lines(c);
    assert_eq!(
        l,
        [
            Line { p0: pt(1, 2), p1: pt(1, 4) },
            Line { p0: pt(1, 4), p1: pt(3, 4) },
            Line { p0: pt(3, 4), p1: pt(3, 2) },
            Line { p0: pt(3, 2), p1: pt(1, 2) },
        ]
    );
}

#[test]
fn distance_to_an_edge() {
    let upright = Line { p0: pt(2, 0), p1: pt(2, 10) };
    assert_eq!(upright.distance_squared_to(pt(5, 4)), 9);
    assert_eq!(upright.distance_squared_to(pt(5, 14)), 9 + 16);
    assert_eq!(upright.distance_squared_to(pt(2, -3)), 9);
    assert_eq!(upright.distance_squared_to(pt(2, 3)), 0);
    let level = Line { p0: pt(10, 1), p1: pt(0, 1) };
    assert_eq!(level.distance_squared_to(pt(4, -1)), 4);
    assert_eq!(level.distance_squared_to(pt(-3, 5)), 9 + 16);
    let dot = Line { p0: pt(1, 1), p1: pt(1, 1) };
    assert_eq!(dot.distance_squared_to(pt(4, 5)), 25);
}

#[test]
fn a_precomputed_segment_holds_what_follows_from_the_segment() {
    let quad = PathSeg::Quad(QuadBez { p0: pt(0, 0), p1: pt(5, 10), p2: pt(10, 0) });
    let precomp = PrecomputedSegment::new(quad);
    assert_eq!(precomp.segment, quad);
    assert_eq!(precomp.control_box, Rect { x0: 0, y0: 0, x1: 10, y1: 10 });
    assert_eq!(precomp.corners, [pt(0, 0), pt(0, 10), pt(10, 10), pt(10, 0)]);
    assert_eq!(precomp.lines, lines(precomp.corners));
}

#[test]
fn a_glyph_path_precomputes_every_segment() {
    let path = vec![
        PathSeg::Line(Line { p0: pt(0, 0), p1: pt(10, 0) }),
        PathSeg::Quad(QuadBez { p0: pt(10, 0), p1: pt(12, 6), p2: pt(5, 9) }),
        PathSeg::Line(Line { p0: pt(5, 9), p1: pt(0, 0) }),
    ];
    let glyph = GlyphPath::new(path.clone());
    assert_eq!(glyph.path, path);
    assert_eq!(glyph.segments.len(), 3);
    for (precomp, segment) in glyph.segments.iter().zip(path) {
        assert_eq!(precomp.segment, segment);
        assert_eq!(precomp.control_box, control_box(segment));
    }
    assert!(!glyph.is_empty());
    assert!(GlyphPath::new(vec![]).is_empty());
}
