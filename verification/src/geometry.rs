//! Points and segments of the lattice, and the proper-crossing test.

use vstd::prelude::*;

verus! {

/// A point of the lattice.
#[derive(Clone, Copy, Debug, PartialEq, Eq, Structural)]
pub struct Point {
    pub x: i32,
    pub y: i32,
}

/// A directed line segment between two lattice points.
#[derive(Clone, Copy, Debug, PartialEq, Eq, Structural)]
pub struct Segment {
    pub start: Point,
    pub end: Point,
}

/// On which side of the line through `s` the point `p` lies: the cross
/// product of `p - s.start` with the direction of `s`. Zero means that `p` is
/// on the line; two points on opposite sides give values of opposite sign.
pub open spec fn side(s: Segment, p: Point) -> int {
    (p.y - s.start.y) * (s.end.x - s.start.x) - (p.x - s.start.x) * (s.end.y - s.start.y)
}

/// Two segments cross properly: the end points of each lie strictly on
/// opposite sides of the other. Segments that only touch, share an end point
/// or are collinear do not cross.
pub open spec fn crosses(a: Segment, b: Segment) -> bool {
    side(a, b.start) * side(a, b.end) < 0 && side(b, a.start) * side(b, a.end) < 0
}

/// No two segments of `network` cross properly.
pub open spec fn crossing_free(network: Seq<Segment>) -> bool {
    forall|i: int, j: int|
        0 <= i < network.len() && 0 <= j < network.len() ==> !crosses(
            #[trigger] network[i],
            #[trigger] network[j],
        )
}

/// Every segment of `network` has two different end points.
pub open spec fn proper(network: Seq<Segment>) -> bool {
    forall|i: int| 0 <= i < network.len() ==> (#[trigger] network[i]).start != network[i].end
}

/// The product of two integers is negative exactly when one of them is
/// negative and the other positive.
pub proof fn lemma_product_negative(u: int, v: int)
    ensures
        u * v < 0 <==> (u < 0 && v > 0) || (u > 0 && v < 0),
{
    assert(u * v < 0 <==> (u < 0 && v > 0) || (u > 0 && v < 0)) by (nonlinear_arith);
}

proof fn lemma_product_bound(u: int, v: int, limit: int)
    requires
        -limit <= u <= limit,
        -limit <= v <= limit,
    ensures
        -(limit * limit) <= u * v <= limit * limit,
{
    assert(-(limit * limit) <= u * v <= limit * limit) by (nonlinear_arith)
        requires
            -limit <= u <= limit,
            -limit <= v <= limit,
    ;
}

/// The crossing test is symmetric in its two segments.
pub proof fn lemma_crosses_symmetric(a: Segment, b: Segment)
    ensures
        crosses(a, b) == crosses(b, a),
{
}

/// A segment never crosses itself.
pub proof fn lemma_crosses_irreflexive(a: Segment)
    ensures
        !crosses(a, a),
{
    assert(side(a, a.start) == 0);
    assert(side(a, a.start) * side(a, a.end) == 0) by (nonlinear_arith)
        requires
            side(a, a.start) == 0,
    ;
}

/// Computes `side(s, p)`.
pub fn side_of(s: Segment, p: Point) -> (r: i128)
    ensures
        r == side(s, p),
{
    let py: i64 = p.y as i64 - s.start.y as i64;
    let px: i64 = p.x as i64 - s.start.x as i64;
    let dx: i64 = s.end.x as i64 - s.start.x as i64;
    let dy: i64 = s.end.y as i64 - s.start.y as i64;
    proof {
        lemma_product_bound(py as int, dx as int, 0x1_0000_0000);
        lemma_product_bound(px as int, dy as int, 0x1_0000_0000);
    }
    let left: i128 = py as i128 * dx as i128;
    let right: i128 = px as i128 * dy as i128;
    left - right
}

/// Whether two values have strictly opposite signs.
fn opposite(u: i128, v: i128) -> (r: bool)
    ensures
        r == (u * v < 0),
{
    proof {
        lemma_product_negative(u as int, v as int);
    }
    (u < 0 && v > 0) || (u > 0 && v < 0)
}

/// Whether `a` and `b` cross properly.
pub fn intersects(a: Segment, b: Segment) -> (r: bool)
    ensures
        r == crosses(a, b),
{
    let o1: i128 = side_of(a, b.start);
    let o2: i128 = side_of(a, b.end);
    let t1: i128 = side_of(b, a.start);
    let t2: i128 = side_of(b, a.end);
    opposite(o1, o2) && opposite(t1, t2)
}

} // verus!
