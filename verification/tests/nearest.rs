use find_dups::geometry::{Line, PathSeg, Point, QuadBez};
use find_dups::glyph_path::{GlyphPath, PrecomputedSegment};
use find_dups::nearest::{closest, nearest_candidates, Nearest, PotentialNearness};

fn pt(x: i32, y: i32) -> Point {
    Point { x, y }
}

fn line(x0: i32, y0: i32, x1: i32, y1: i32) -> PathSeg {
    PathSeg::Line(Line { p0: pt(x0, y0), p1: pt(x1, y1) })
}

#[test]
fn bounds_from_inside_the_control_box() {
    let quad = PathSeg::Quad(QuadBez { p0: pt(0, 0), p1: pt(5, 10), p2: pt(10, 0) });
    let nearness = PotentialNearness::new(pt(2, 3), PrecomputedSegment::new(quad));
    assert_eq!(nearness.min_dst_sq, 0);
    // the farthest corner is (10, 10)
    assert_eq!(nearness.max_dst_sq, 64 + 49);
    assert_eq!(nearness.precomp.segment, quad);
}

#[test]
fn bounds_from_outside_the_control_box() {
    let precomp = PrecomputedSegment::new(line(0, 0, 10, 4));
    // left of the box, level with it
    let beside = PotentialNearness::new(pt(-3, 2), precomp);
    assert_eq!((beside.min_dst_sq, beside.max_dst_sq), (9, 169 + 4));
    // off a corner
    let off = PotentialNearness::new(pt(13, 8), precomp);
    assert_eq!((off.min_dst_sq, off.max_dst_sq), (9 + 16, 169 + 64));
    // on the high edge, which the box does not contain
    let on = PotentialNearness::new(pt(10, 2), precomp);
    assert_eq!((on.min_dst_sq, on.max_dst_sq), (0, 100 + 4));
}

#[test]
fn bounds_of_a_box_without_area() {
    let precomp = PrecomputedSegment::new(line(0, 5, 10, 5));
    let above = PotentialNearness::new(pt(4, 8), precomp);
    assert_eq!((above.min_dst_sq, above.max_dst_sq), (9, 36 + 9));
    let on = PotentialNearness::new(pt(4, 5), precomp);
    assert_eq!((on.min_dst_sq, on.max_dst_sq), (0, 36));
}

#[test]
fn closer_and_intersects() {
    let precomp = PrecomputedSegment::new(line(0, 0, 1, 1));
    let near = PotentialNearness { min_dst_sq: 1, max_dst_sq: 4, precomp };
    let far = PotentialNearness { min_dst_sq: 5, max_dst_sq: 9, precomp };
    let wide = PotentialNearness { min_dst_sq: 4, max_dst_sq: 20, precomp };
    assert!(near.closer(far));
    assert!(!far.closer(near));
    assert!(!near.closer(wide));
    assert!(!near.closer(near));
    assert!(!near.intersects(far));
    assert!(!far.intersects(near));
    assert!(near.intersects(wide));
    assert!(wide.intersects(near));
    assert!(wide.intersects(far));
    assert!(near.intersects(near));
}

#[test]
fn a_far_segment_is_no_candidate() {
    let glyph = GlyphPath::new(vec![line(0, 0, 10, 0), line(100, 100, 110, 100), line(0, 2, 10, 2)]);
    let mut scratch = Vec::new();
    nearest_candidates(&mut scratch, pt(5, 1), &glyph);
    let kept: Vec<PathSeg> = scratch.iter().map(|n| n.precomp.segment).collect();
    assert_eq!(kept, vec![line(0, 0, 10, 0), line(0, 2, 10, 2)]);
    assert_eq!((scratch[0].min_dst_sq, scratch[0].max_dst_sq), (1, 26));
}

#[test]
fn a_later_segment_drives_out_the_earlier() {
    let glyph = GlyphPath::new(vec![line(100, 100, 110, 100), line(50, 50, 60, 50), line(0, 0, 2, 0)]);
    let mut scratch = Vec::new();
    nearest_candidates(&mut scratch, pt(1, 1), &glyph);
    let kept: Vec<PathSeg> = scratch.iter().map(|n| n.precomp.segment).collect();
    assert_eq!(kept, vec![line(0, 0, 2, 0)]);
}

#[test]
fn the_scratch_is_cleared_first() {
    let glyph = GlyphPath::new(vec![line(0, 0, 10, 0)]);
    let stale = PotentialNearness::new(pt(0, 0), PrecomputedSegment::new(line(0, 0, 0, 0)));
    let mut scratch = vec![stale; 5];
    nearest_candidates(&mut scratch, pt(5, 3), &glyph);
    assert_eq!(scratch.len(), 1);
    assert_eq!(scratch[0].precomp.segment, line(0, 0, 10, 0));
    nearest_candidates(&mut scratch, pt(5, 3), &GlyphPath::new(vec![]));
    assert!(scratch.is_empty());
}

#[test]
fn equal_bounds_all_stay() {
    let glyph = GlyphPath::new(vec![line(0, 0, 10, 0), line(0, 0, 10, 0), line(10, 0, 0, 0)]);
    let mut scratch = Vec::new();
    nearest_candidates(&mut scratch, pt(5, 5), &glyph);
    assert_eq!(scratch.len(), 3);
}

#[test]
fn the_closest_is_the_first_of_the_nearest() {
    let found = vec![
        Nearest { distance_sq: 9, point: pt(1, 1) },
        Nearest { distance_sq: 4, point: pt(2, 2) },
        Nearest { distance_sq: 7, point: pt(3, 3) },
        Nearest { distance_sq: 4, point: pt(4, 4) },
    ];
    assert_eq!(closest(&found), pt(2, 2));
    assert_eq!(closest(&found[..1].to_vec()), pt(1, 1));
    assert_eq!(closest(&found[2..].to_vec()), pt(4, 4));
}
