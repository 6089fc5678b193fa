use roadgen::generator::{generate, Generator};
use roadgen::geometry::{intersects, Point, Segment};
use roadgen::road::{Config, GrowthContext, RoadQuery, RoadSpec};
use roadgen::scheduler::Scheduler;

fn seed(angle: i32, length: i32) -> RoadQuery {
    RoadQuery {
        timer: 0,
        lifetime: 0,
        road: RoadSpec { angle, length },
        context: GrowthContext { origin: Point { x: 0, y: 0 }, prev_angle: 0 },
        valid: true,
    }
}

fn timed(timer: u64, mark: i32) -> RoadQuery {
    let mut q = seed(mark, 1);
    q.timer = timer;
    q
}

#[test]
fn scheduler_serves_by_ascending_timer() {
    let mut s = Scheduler::new();
    assert!(s.is_empty());
    s.push(timed(5, 0));
    s.push(timed(2, 1));
    s.push(timed(9, 2));
    s.push(timed(1, 3));
    assert_eq!(s.len(), 4);
    let order: Vec<u64> = (0..4).map(|_| s.pop().unwrap().timer).collect();
    assert_eq!(order, vec![1, 2, 5, 9]);
    assert!(s.is_empty());
    assert_eq!(s.pop(), None);
}

#[test]
fn scheduler_serves_equal_timers_first_come_first_served() {
    let mut s = Scheduler::new();
    s.push(timed(3, 10));
    s.push(timed(1, 11));
    s.push(timed(3, 12));
    s.push(timed(1, 13));
    s.push(timed(3, 14));
    let marks: Vec<i32> = (0..5).map(|_| s.pop().unwrap().road.angle).collect();
    assert_eq!(marks, vec![11, 13, 10, 12, 14]);
}

#[test]
fn growth_is_deterministic() {
    let config = Config::new(5, (35, -50), 850, 2).unwrap();
    let first = generate(seed(45, 500), config);
    let second = generate(seed(45, 500), config);
    assert!(!first.is_empty());
    assert_eq!(first, second);
}

#[test]
fn no_two_accepted_segments_cross() {
    let config = Config::new(6, (60, -75), 950, 1).unwrap();
    let network = generate(seed(45, 1000), config);
    assert!(network.len() > 1);
    for a in &network {
        for b in &network {
            assert!(!intersects(*a, *b));
        }
    }
}

#[test]
fn depth_zero_keeps_only_the_seed() {
    let config = Config::new(0, (30, -30), 900, 1).unwrap();
    let network = generate(seed(0, 1), config);
    assert_eq!(
        network,
        vec![Segment { start: Point { x: 0, y: 0 }, end: Point { x: 0, y: 1 } }]
    );
}

#[test]
fn rejected_seed_gives_an_empty_network() {
    let config = Config::new(3, (30, -30), 900, 1).unwrap();
    assert!(generate(seed(0, 0), config).is_empty());
    let mut invalid = seed(0, 10);
    invalid.valid = false;
    assert!(generate(invalid, config).is_empty());
    let mut deep = seed(0, 10);
    deep.lifetime = 4;
    assert!(generate(deep, config).is_empty());
}

#[test]
fn depth_one_grows_the_seed_and_its_three_followers() {
    let config = Config::new(1, (90, -90), 1000, 1).unwrap();
    let network = generate(seed(0, 10), config);
    let p = |x: i32, y: i32| Point { x, y };
    assert_eq!(
        network,
        vec![
            Segment { start: p(0, 0), end: p(0, 10) },
            Segment { start: p(0, 10), end: p(0, 20) },
            Segment { start: p(0, 10), end: p(10, 10) },
            Segment { start: p(0, 10), end: p(-10, 10) },
        ]
    );
}

#[test]
fn network_stays_within_the_size_of_one_lineage() {
    for max in 0u32..6 {
        let config = Config::new(max, (40, -40), 900, 1).unwrap();
        let network = generate(seed(0, 100_000), config);
        let bound = (3usize.pow(max + 1) - 1) / 2;
        assert!(network.len() <= bound);
        assert!(!network.is_empty());
    }
}

#[test]
fn queue_stays_within_three_to_the_depth() {
    let max = 4u32;
    let config = Config::new(max, (40, -40), 900, 1).unwrap();
    let mut generator = Generator::new(config, seed(0, 100_000));
    assert_eq!(generator.queue.len(), 1);
    let mut served = 0usize;
    let mut widest = 0usize;
    while generator.step() {
        served += 1;
        widest = widest.max(generator.queue.len());
        assert!(generator.queue.len() <= 3usize.pow(max));
        assert!(served <= (3usize.pow(max + 1) - 1) / 2);
    }
    assert!(widest > 1);
    assert!(generator.queue.is_empty());
    assert!(!generator.step());
    let network = generator.run();
    assert_eq!(network, generate(seed(0, 100_000), config));
}

#[test]
fn step_serves_one_query_and_enqueues_three() {
    let config = Config::new(2, (90, -90), 500, 4).unwrap();
    let mut generator = Generator::new(config, seed(0, 8));
    assert!(generator.step());
    assert_eq!(generator.network.len(), 1);
    assert_eq!(generator.queue.len(), 3);
    let next = generator.queue.pop().unwrap();
    assert_eq!(next.timer, 4);
    assert_eq!(next.lifetime, 1);
    assert_eq!(next.road, RoadSpec { angle: 0, length: 4 });
    assert_eq!(next.context.origin, Point { x: 0, y: 8 });
}

#[test]
fn crossing_follower_is_dropped() {
    // A road that turns back by 135 degrees twice runs across the seed.
    let config = Config::new(2, (135, 135), 1000, 1).unwrap();
    let network = generate(seed(0, 10), config);
    let p = |x: i32, y: i32| Point { x, y };
    let back = Segment { start: p(7, 3), end: p(-3, 3) };
    assert!(intersects(back, network[0]));
    assert!(!network.contains(&back));
    assert!(network.contains(&Segment { start: p(7, 3), end: p(14, -4) }));
    assert_eq!(network.len(), 9);
    for a in &network {
        for b in &network {
            assert!(!intersects(*a, *b));
        }
    }
}

#[test]
fn overlapping_roads_are_all_accepted() {
    // Right angles and equal lengths keep every road on a grid, where roads
    // touch and overlap but never cross.
    let config = Config::new(3, (90, -90), 1000, 1).unwrap();
    let network = generate(seed(90, 10), config);
    assert_eq!(network.len(), 40);
}

#[test]
fn scheduler_keeps_its_order_over_many_proposals() {
    let mut s = Scheduler::new();
    for i in 0..500i32 {
        s.push(timed(((i as u64) * 7919) % 13, i));
    }
    assert_eq!(s.len(), 500);
    let mut last: Option<(u64, i32)> = None;
    for _ in 0..500 {
        let q = s.pop().unwrap();
        let key = (q.timer, q.road.angle);
        if let Some(previous) = last {
            assert!(previous < key);
        }
        last = Some(key);
    }
    assert!(s.is_empty());
}

#[test]
fn scheduler_interleaves_pushes_and_pops() {
    let mut s = Scheduler::new();
    s.push(timed(4, 0));
    s.push(timed(4, 1));
    assert_eq!(s.pop().unwrap().road.angle, 0);
    s.push(timed(4, 2));
    s.push(timed(3, 3));
    s.push(timed(4, 4));
    assert_eq!(s.pop().unwrap().road.angle, 3);
    assert_eq!(s.pop().unwrap().road.angle, 1);
    s.push(timed(4, 5));
    assert_eq!(s.pop().unwrap().road.angle, 2);
    assert_eq!(s.pop().unwrap().road.angle, 4);
    assert_eq!(s.pop().unwrap().road.angle, 5);
    assert_eq!(s.pop(), None);
    assert_eq!(s.len(), 0);
}

#[test]
fn collapsed_seed_gives_an_empty_network() {
    let config = Config::new(0, (30, -30), 900, 1).unwrap();
    assert!(generate(seed(45, 1), config).is_empty());
    let config = Config::new(4, (30, -30), 900, 1).unwrap();
    assert!(generate(seed(45, 1), config).is_empty());
}

#[test]
fn no_accepted_segment_is_a_single_point() {
    // The lengths decay through 1 before they reach 0.
    let config = Config::new(7, (45, -45), 500, 1).unwrap();
    let network = generate(seed(0, 40), config);
    assert!(network.len() > 1);
    for segment in &network {
        assert!(segment.start != segment.end);
    }
    // Roads of the last generations are too short to leave their origin.
    assert!(network.len() < (3usize.pow(8) - 1) / 2);
}
