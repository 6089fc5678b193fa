use roadgen::geometry::{intersects, side_of, Point, Segment};

fn seg(x0: i32, y0: i32, x1: i32, y1: i32) -> Segment {
    Segment { start: Point { x: x0, y: y0 }, end: Point { x: x1, y: y1 } }
}

#[test]
fn diagonals_cross_at_their_midpoints() {
    assert!(intersects(seg(0, 0, 2, 2), seg(0, 2, 2, 0)));
    assert!(intersects(seg(0, 2, 2, 0), seg(0, 0, 2, 2)));
}

#[test]
fn shared_end_point_is_no_crossing() {
    assert!(!intersects(seg(0, 0, 1, 0), seg(1, 0, 1, 1)));
    assert!(!intersects(seg(1, 0, 1, 1), seg(0, 0, 1, 0)));
}

#[test]
fn touching_in_the_middle_is_no_crossing() {
    // The second segment ends on the first.
    assert!(!intersects(seg(0, 0, 4, 0), seg(2, 0, 2, 3)));
}

#[test]
fn collinear_overlap_is_no_crossing() {
    assert!(!intersects(seg(0, 0, 4, 0), seg(2, 0, 6, 0)));
}

#[test]
fn disjoint_segments_do_not_cross() {
    assert!(!intersects(seg(0, 0, 1, 1), seg(5, 5, 6, 7)));
    // The line through the first cuts the second, but the first stops short.
    assert!(!intersects(seg(0, 0, 1, 0), seg(3, -1, 3, 1)));
}

#[test]
fn a_segment_does_not_cross_itself() {
    let s = seg(-3, 4, 7, -9);
    assert!(!intersects(s, s));
}

#[test]
fn side_is_the_cross_product() {
    let s = seg(0, 0, 2, 0);
    assert_eq!(side_of(s, Point { x: 1, y: 3 }), 6);
    assert_eq!(side_of(s, Point { x: 1, y: -3 }), -6);
    assert_eq!(side_of(s, Point { x: 5, y: 0 }), 0);
}

#[test]
fn crossing_at_the_edge_of_the_lattice() {
    let a = seg(i32::MIN, i32::MIN, i32::MAX, i32::MAX);
    let b = seg(i32::MIN, i32::MAX, i32::MAX, i32::MIN);
    assert!(intersects(a, b));
    assert_eq!(
        side_of(a, Point { x: i32::MIN, y: i32::MAX }),
        (u32::MAX as i128) * (u32::MAX as i128)
    );
}
