//! Road proposals: their shape, where they grow from, how they become
//! segments, when they are legal, and which proposals follow an accepted one.

use vstd::prelude::*;
use crate::geometry::{Point, Segment, crosses, intersects};
use crate::direction::{
    SCALE, unit_direction, normalized, toward_zero, sine_of, cosine_of, normalize,
    divide_toward_zero, lemma_toward_zero_bounded,
};

verus! {

/// The shape of a proposed road.
#[derive(Clone, Copy, Debug, PartialEq, Eq, Structural)]
pub struct RoadSpec {
    /// Turn in degrees relative to the incoming heading; positive turns
    /// from the positive y axis toward the positive x axis.
    pub angle: i32,
    /// Length in lattice units. A road must have a positive length.
    pub length: i32,
}

/// The place and heading that a proposal grows from.
#[derive(Clone, Copy, Debug, PartialEq, Eq, Structural)]
pub struct GrowthContext {
    pub origin: Point,
    /// Absolute heading of the incoming road, in degrees.
    pub prev_angle: i32,
}

/// A pending proposal.
#[derive(Clone, Copy, Debug, PartialEq, Eq, Structural)]
pub struct RoadQuery {
    /// The tick at which the proposal is due; lower ticks are served first.
    pub timer: u64,
    /// The number of generations between the seed and this proposal.
    pub lifetime: u32,
    pub road: RoadSpec,
    pub context: GrowthContext,
    /// A proposal that is not valid is rejected whatever its geometry.
    pub valid: bool,
}

/// The growth policy.
#[derive(Clone, Copy, Debug, PartialEq, Eq)]
pub struct Config {
    /// Proposals of a deeper generation than this are never enqueued, so an
    /// accepted road of this generation has no followers.
    pub max_lifetime: u32,
    /// The turns, in degrees, of the two side branches.
    pub branch_angles: (i32, i32),
    /// What is left of a road's length in the next generation, in
    /// thousandths: from 1 to 1000.
    pub length_falloff: u32,
    /// The ticks between a road and its followers: at least 1.
    pub timer_increment: u32,
}

/// The denominator of `Config::length_falloff`.
pub const FALLOFF_SCALE: u32 = 1000;

impl Config {
    /// The policy is usable: the falloff is a fraction in (0, 1] and
    /// followers are due strictly later than their parent.
    pub open spec fn wf(&self) -> bool {
        &&& 1 <= self.length_falloff <= FALLOFF_SCALE
        &&& self.timer_increment >= 1
    }

    /// Builds a policy, or `None` where the falloff is not in (0, 1] or the
    /// timer increment is zero.
    pub fn new(
        max_lifetime: u32,
        branch_angles: (i32, i32),
        length_falloff: u32,
        timer_increment: u32,
    ) -> (r: Option<Config>)
        ensures
            r == (if 1 <= length_falloff <= FALLOFF_SCALE && timer_increment >= 1 {
                Some(
                    Config { max_lifetime, branch_angles, length_falloff, timer_increment },
                )
            } else {
                None
            }),
            r is Some ==> r->Some_0.wf(),
    {
        if 1 <= length_falloff && length_falloff <= FALLOFF_SCALE && timer_increment >= 1 {
            Some(Config { max_lifetime, branch_angles, length_falloff, timer_increment })
        } else {
            None
        }
    }
}

impl RoadQuery {
    /// The absolute heading of the proposed road, `0 <= h < 360`.
    pub open spec fn heading(&self) -> int {
        normalized(self.context.prev_angle + self.road.angle)
    }

    /// The x coordinate of the road's far end,
    /// `origin + length * unit_direction(heading)`, before any bound is
    /// applied.
    pub open spec fn end_x(&self) -> int {
        self.context.origin.x + toward_zero(
            self.road.length * unit_direction(self.heading()).0,
            SCALE as int,
        )
    }

    /// The y coordinate of the road's far end, before any bound is applied.
    pub open spec fn end_y(&self) -> int {
        self.context.origin.y + toward_zero(
            self.road.length * unit_direction(self.heading()).1,
            SCALE as int,
        )
    }

    /// The far end lies on the lattice.
    pub open spec fn in_world(&self) -> bool {
        &&& i32::MIN <= self.end_x() <= i32::MAX
        &&& i32::MIN <= self.end_y() <= i32::MAX
    }

    /// The segment that the proposal stands for, where its far end lies on
    /// the lattice.
    pub open spec fn segment(&self) -> Option<Segment> {
        if self.in_world() {
            Some(
                Segment {
                    start: self.context.origin,
                    end: Point { x: self.end_x() as i32, y: self.end_y() as i32 },
                },
            )
        } else {
            None
        }
    }

    /// The road is too short to leave the lattice point that it starts from:
    /// both its offsets round to zero.
    pub open spec fn collapsed(&self) -> bool {
        self.end_x() == self.context.origin.x && self.end_y() == self.context.origin.y
    }

    /// The proposal may join `network`: it is valid, has a positive length,
    /// ends on the lattice at another point than it starts from, and crosses
    /// no segment of the network.
    pub open spec fn legal_in(&self, network: Seq<Segment>) -> bool {
        &&& self.valid
        &&& self.road.length > 0
        &&& self.in_world()
        &&& !self.collapsed()
        &&& forall|i: int|
            0 <= i < network.len() ==> !crosses(self.segment()->Some_0, #[trigger] network[i])
    }

    /// Followers of the proposal can be represented: its far end lies on the
    /// lattice and neither their timer nor their lifetime overflows.
    pub open spec fn expandable(&self, config: Config) -> bool {
        &&& self.in_world()
        &&& self.timer + config.timer_increment <= u64::MAX
        &&& self.lifetime < u32::MAX
    }

    /// The follower that turns by `angle` from the proposal's heading.
    pub open spec fn child(&self, config: Config, angle: i32) -> RoadQuery {
        RoadQuery {
            timer: (self.timer + config.timer_increment) as u64,
            lifetime: (self.lifetime + 1) as u32,
            road: RoadSpec {
                angle,
                length: toward_zero(
                    self.road.length * config.length_falloff,
                    FALLOFF_SCALE as int,
                ) as i32,
            },
            context: GrowthContext {
                origin: self.segment()->Some_0.end,
                prev_angle: self.heading() as i32,
            },
            valid: true,
        }
    }

    /// The three followers: straight on first, then the two side branches.
    pub open spec fn children(&self, config: Config) -> (RoadQuery, RoadQuery, RoadQuery) {
        (
            self.child(config, 0),
            self.child(config, config.branch_angles.0),
            self.child(config, config.branch_angles.1),
        )
    }
}

/// One coordinate of a far end: `origin` plus `length` along a direction
/// component `part`, in millionths.
fn advance(origin: i32, length: i32, part: i64) -> (r: i64)
    requires
        -SCALE <= part <= SCALE,
    ensures
        r == origin + toward_zero(length * part, SCALE as int),
{
    assert(-0x8000_0000 * 1_000_000 <= length * part <= 0x8000_0000 * 1_000_000)
        by (nonlinear_arith)
        requires
            -0x8000_0000 <= length <= 0x8000_0000,
            -1_000_000 <= part <= 1_000_000,
    ;
    let product: i64 = length as i64 * part;
    let offset: i64 = divide_toward_zero(product, 1_000_000);
    proof {
        lemma_toward_zero_bounded(product as int, 1_000_000, 2_147_483_648_000_000int);
    }
    origin as i64 + offset
}

/// The segment of a proposal: from its origin to
/// `origin + length * unit_direction(prev_angle + angle)`. `None` where the
/// far end leaves the lattice.
pub fn materialize(query: &RoadQuery) -> (r: Option<Segment>)
    ensures
        r == query.segment(),
{
    let h: u32 = normalize(query.context.prev_angle, query.road.angle);
    let x: i64 = advance(query.context.origin.x, query.road.length, sine_of(h));
    let y: i64 = advance(query.context.origin.y, query.road.length, cosine_of(h));
    if x < -0x8000_0000 || x > 0x7fff_ffff || y < -0x8000_0000 || y > 0x7fff_ffff {
        None
    } else {
        Some(Segment { start: query.context.origin, end: Point { x: x as i32, y: y as i32 } })
    }
}

/// The segment of `candidate` where it may join `network`, and `None` where
/// it may not. A segment that is handed out has two different end points.
pub fn accept(candidate: &RoadQuery, network: &Vec<Segment>) -> (r: Option<Segment>)
    ensures
        r == (if candidate.legal_in(network@) {
            candidate.segment()
        } else {
            None
        }),
        r matches Some(segment) ==> segment.start != segment.end,
{
    if !candidate.valid || candidate.road.length <= 0 {
        return None;
    }
    match materialize(candidate) {
        None => None,
        Some(segment) => {
            if segment.end.x == segment.start.x && segment.end.y == segment.start.y {
                return None;
            }
            let mut i: usize = 0;
            while i < network.len()
                invariant
                    i <= network.len(),
                    candidate.valid,
                    candidate.road.length > 0,
                    candidate.segment() == Some(segment),
                    !candidate.collapsed(),
                    forall|k: int| 0 <= k < i ==> !crosses(segment, #[trigger] network@[k]),
                decreases network.len() - i,
            {
                if intersects(segment, network[i]) {
                    assert(crosses(candidate.segment()->Some_0, network@[i as int]));
                    return None;
                }
                i += 1;
            }
            Some(segment)
        },
    }
}

/// Whether `candidate` may join `network`.
pub fn legal(candidate: &RoadQuery, network: &Vec<Segment>) -> (r: bool)
    ensures
        r == candidate.legal_in(network@),
{
    accept(candidate, network).is_some()
}

/// The three followers of an accepted proposal. Each starts where the
/// parent ends, continues from the parent's heading, is one generation older
/// and is due `timer_increment` ticks later. `None` where they cannot be
/// represented.
pub fn expand(parent: &RoadQuery, config: &Config) -> (r: Option<
    (RoadQuery, RoadQuery, RoadQuery),
>)
    requires
        config.wf(),
    ensures
        r == (if parent.expandable(*config) {
            Some(parent.children(*config))
        } else {
            None
        }),
        r matches Some((a, b, c)) ==> {
            &&& a.lifetime == parent.lifetime + 1
            &&& b.lifetime == parent.lifetime + 1
            &&& c.lifetime == parent.lifetime + 1
            &&& a.timer > parent.timer
            &&& b.timer > parent.timer
            &&& c.timer > parent.timer
        },
{
    if parent.lifetime == u32::MAX || parent.timer > u64::MAX - config.timer_increment as u64 {
        return None;
    }
    match materialize(parent) {
        None => None,
        Some(segment) => {
            let timer: u64 = parent.timer + config.timer_increment as u64;
            let lifetime: u32 = parent.lifetime + 1;
            let h: u32 = normalize(parent.context.prev_angle, parent.road.angle);
            assert(-0x8000_0000 * 1000 <= parent.road.length * config.length_falloff
                <= 0x8000_0000 * 1000) by (nonlinear_arith)
                requires
                    -0x8000_0000 <= parent.road.length <= 0x8000_0000,
                    0 <= config.length_falloff <= 1000,
            ;
            let product: i64 = parent.road.length as i64 * config.length_falloff as i64;
            let length: i64 = divide_toward_zero(product, FALLOFF_SCALE);
            proof {
                lemma_falloff_shrinks(parent.road.length as int, config.length_falloff as int);
            }
            let context = GrowthContext { origin: segment.end, prev_angle: h as i32 };
            let straight = RoadQuery {
                timer,
                lifetime,
                road: RoadSpec { angle: 0, length: length as i32 },
                context,
                valid: true,
            };
            let left = RoadQuery {
                timer,
                lifetime,
                road: RoadSpec { angle: config.branch_angles.0, length: length as i32 },
                context,
                valid: true,
            };
            let right = RoadQuery {
                timer,
                lifetime,
                road: RoadSpec { angle: config.branch_angles.1, length: length as i32 },
                context,
                valid: true,
            };
            Some((straight, left, right))
        },
    }
}

/// A length after falloff is no longer than before, and keeps its sign.
pub proof fn lemma_falloff_shrinks(length: int, falloff: int)
    requires
        1 <= falloff <= FALLOFF_SCALE,
    ensures
        length >= 0 ==> 0 <= toward_zero(length * falloff, FALLOFF_SCALE as int) <= length,
        length <= 0 ==> length <= toward_zero(length * falloff, FALLOFF_SCALE as int) <= 0,
{
    let magnitude: int = if length >= 0 { length } else { -length };
    assert(0 <= magnitude * falloff <= magnitude * 1000) by (nonlinear_arith)
        requires
            0 <= magnitude,
            1 <= falloff <= 1000,
    ;
    assert(length >= 0 ==> length * falloff == magnitude * falloff);
    assert(length < 0 ==> -(length * falloff) == magnitude * falloff) by (nonlinear_arith)
        requires
            magnitude == -length || magnitude == length,
            length < 0 ==> magnitude == -length,
    ;
    assert(length < 0 ==> length * falloff <= 0) by (nonlinear_arith)
        requires
            falloff >= 1,
    ;
    vstd::arithmetic::div_mod::lemma_div_is_ordered(magnitude * falloff, magnitude * 1000, 1000);
    vstd::arithmetic::div_mod::lemma_div_by_multiple(magnitude, 1000);
    vstd::arithmetic::div_mod::lemma_div_pos_is_pos(magnitude * falloff, 1000);
    assert(magnitude * 1000 == 1000 * magnitude) by (nonlinear_arith);
}

} // verus!
