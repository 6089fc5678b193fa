use roadgen::geometry::{Point, Segment};
use roadgen::road::{
    accept, expand, legal, materialize, Config, GrowthContext, RoadQuery, RoadSpec,
};

fn query(x: i32, y: i32, prev_angle: i32, angle: i32, length: i32) -> RoadQuery {
    RoadQuery {
        timer: 0,
        lifetime: 0,
        road: RoadSpec { angle, length },
        context: GrowthContext { origin: Point { x, y }, prev_angle },
        valid: true,
    }
}

fn seg(x0: i32, y0: i32, x1: i32, y1: i32) -> Segment {
    Segment { start: Point { x: x0, y: y0 }, end: Point { x: x1, y: y1 } }
}

#[test]
fn heading_zero_points_along_y() {
    let s = materialize(&query(0, 0, 0, 0, 1)).unwrap();
    assert_eq!(s.start, Point { x: 0, y: 0 });
    assert_eq!(s.end, Point { x: 0, y: 1 });
}

#[test]
fn heading_ninety_points_along_x() {
    let s = materialize(&query(3, 4, 0, 90, 1000)).unwrap();
    assert_eq!(s, seg(3, 4, 1003, 4));
}

#[test]
fn angle_adds_to_the_incoming_heading() {
    let s = materialize(&query(0, 0, 20, 10, 1000)).unwrap();
    assert_eq!(s.end, Point { x: 500, y: 866 });
    let s = materialize(&query(0, 0, 0, -90, 7)).unwrap();
    assert_eq!(s.end, Point { x: -7, y: 0 });
}

#[test]
fn offsets_round_toward_zero() {
    let s = materialize(&query(0, 0, 180, 30, 1000)).unwrap();
    assert_eq!(s.end, Point { x: -500, y: -866 });
    let s = materialize(&query(0, 0, 0, 45, 500)).unwrap();
    assert_eq!(s.end, Point { x: 353, y: 353 });
}

#[test]
fn far_end_off_the_lattice_gives_no_segment() {
    assert_eq!(materialize(&query(0, i32::MAX, 0, 0, 1)), None);
    assert_eq!(materialize(&query(i32::MIN, 0, 270, 0, 1)), None);
    assert!(materialize(&query(0, i32::MAX - 1, 0, 0, 1)).is_some());
}

#[test]
fn legal_on_an_empty_network() {
    assert!(legal(&query(0, 0, 0, 0, 10), &Vec::new()));
}

#[test]
fn invalid_query_is_illegal() {
    let mut q = query(0, 0, 0, 0, 10);
    q.valid = false;
    assert!(!legal(&q, &Vec::new()));
}

#[test]
fn degenerate_length_is_illegal() {
    assert!(!legal(&query(0, 0, 0, 0, 0), &Vec::new()));
    assert!(!legal(&query(0, 0, 0, 0, -5), &Vec::new()));
}

#[test]
fn leaving_the_lattice_is_illegal() {
    assert!(!legal(&query(0, i32::MAX, 0, 0, 1), &Vec::new()));
}

#[test]
fn crossing_an_accepted_segment_is_illegal() {
    let network = vec![seg(50, 50, 60, 60), seg(-5, 5, 5, 5)];
    assert!(!legal(&query(0, 0, 0, 0, 10), &network));
    // Stopping on the accepted segment only touches it.
    assert!(legal(&query(0, 0, 0, 0, 5), &network));
    // Starting from the end of an accepted segment is legal.
    assert!(legal(&query(5, 5, 0, 0, 10), &network));
}

#[test]
fn config_rejects_unusable_policies() {
    assert!(Config::new(3, (30, -30), 900, 1).is_some());
    assert!(Config::new(3, (30, -30), 1000, 1).is_some());
    assert_eq!(Config::new(3, (30, -30), 0, 1), None);
    assert_eq!(Config::new(3, (30, -30), 1001, 1), None);
    assert_eq!(Config::new(3, (30, -30), 900, 0), None);
    let c = Config::new(4, (25, -35), 500, 7).unwrap();
    assert_eq!(c.max_lifetime, 4);
    assert_eq!(c.branch_angles, (25, -35));
    assert_eq!(c.length_falloff, 500);
    assert_eq!(c.timer_increment, 7);
}

#[test]
fn expand_yields_three_children_of_the_next_generation() {
    let config = Config::new(5, (30, -40), 900, 3).unwrap();
    let mut parent = query(10, 20, 80, 10, 1000);
    parent.timer = 12;
    parent.lifetime = 2;
    let (a, b, c) = expand(&parent, &config).unwrap();
    for child in [a, b, c] {
        assert_eq!(child.lifetime, 3);
        assert_eq!(child.timer, 15);
        assert!(child.timer > parent.timer);
        assert_eq!(child.context.origin, Point { x: 1010, y: 20 });
        assert_eq!(child.context.prev_angle, 90);
        assert_eq!(child.road.length, 900);
        assert!(child.valid);
    }
    assert_eq!(a.road.angle, 0);
    assert_eq!(b.road.angle, 30);
    assert_eq!(c.road.angle, -40);
}

#[test]
fn expand_starts_children_where_the_parent_ends() {
    let config = Config::new(5, (30, -30), 1000, 1).unwrap();
    let parent = query(0, 0, 0, 0, 1);
    let end = materialize(&parent).unwrap().end;
    let (a, _, _) = expand(&parent, &config).unwrap();
    assert_eq!(a.context.origin, end);
    assert_eq!(a.context.origin, Point { x: 0, y: 1 });
    assert_eq!(a.road.length, 1);
}

#[test]
fn falloff_rounds_the_length_down() {
    let config = Config::new(5, (30, -30), 333, 1).unwrap();
    let (a, _, _) = expand(&query(0, 0, 0, 0, 10), &config).unwrap();
    assert_eq!(a.road.length, 3);
    let (a, _, _) = expand(&query(0, 0, 0, 0, 2), &config).unwrap();
    assert_eq!(a.road.length, 0);
}

#[test]
fn expand_gives_nothing_where_children_cannot_be_represented() {
    let config = Config::new(5, (30, -30), 900, 2).unwrap();
    let mut late = query(0, 0, 0, 0, 10);
    late.timer = u64::MAX - 1;
    assert_eq!(expand(&late, &config), None);
    late.timer = u64::MAX - 2;
    assert_eq!(expand(&late, &config).unwrap().0.timer, u64::MAX);
    let mut old = query(0, 0, 0, 0, 10);
    old.lifetime = u32::MAX;
    assert_eq!(expand(&old, &config), None);
    assert_eq!(expand(&query(0, i32::MAX, 0, 0, 10), &config), None);
}

#[test]
fn accept_hands_out_the_segment_of_a_legal_query() {
    let network = vec![seg(-5, 5, 5, 5)];
    assert_eq!(accept(&query(0, 0, 0, 0, 5), &network), Some(seg(0, 0, 0, 5)));
    assert_eq!(accept(&query(0, 0, 0, 0, 10), &network), None);
    assert_eq!(accept(&query(0, 0, 0, 0, 0), &network), None);
    assert_eq!(accept(&query(0, 0, 0, 90, 3), &Vec::new()), Some(seg(0, 0, 3, 0)));
}

#[test]
fn road_that_collapses_to_a_point_is_illegal() {
    // Both offsets of a road of length 1 at 45 degrees round to zero.
    let short = query(0, 0, 0, 45, 1);
    assert_eq!(materialize(&short), Some(seg(0, 0, 0, 0)));
    assert!(!legal(&short, &Vec::new()));
    assert_eq!(accept(&short, &Vec::new()), None);
    assert!(!legal(&query(7, -3, 30, 30, 1), &Vec::new()));
    // Along an axis a road of length 1 reaches the next lattice point.
    assert!(legal(&query(0, 0, 0, 90, 1), &Vec::new()));
    // At 45 degrees a road of length 2 does too.
    assert_eq!(accept(&query(0, 0, 0, 45, 2), &Vec::new()), Some(seg(0, 0, 1, 1)));
}
