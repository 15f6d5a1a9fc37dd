//! The outline of a solved chain: a left edge and a right edge a radius away
//! from every node, a fan of points round the nose, and a cap behind the
//! tail, joined into one loop.

use crate::chain::{KinematicChain, Node};
use crate::planar::{between, scaled, turned, Planar, Point, Vector};
use crate::rounding::lemma_turned_span;
use vstd::prelude::*;

verus! {

/// The number of points in the fan on each side of the nose.
pub const FAN: usize = 4;

/// The cosine, over `UNIT`, of the angle of fan point `k`: 15 degrees for the
/// first, and 15 more for each one after it.
pub open spec fn fan_cos(k: int) -> int {
    if k == 0 {
        1037154958
    } else if k == 1 {
        929887696
    } else if k == 2 {
        759250124
    } else {
        536870912
    }
}

/// The sine, over `UNIT`, of the angle of fan point `k`.
pub open spec fn fan_sin(k: int) -> int {
    if k == 0 {
        277904833
    } else if k == 1 {
        536870912
    } else if k == 2 {
        759250124
    } else {
        929887696
    }
}

/// The point at `v` from `o`.
pub open spec fn at(o: Vector, v: Vector) -> Planar {
    Planar { x: (o.x + v.x) as i64, y: (o.y + v.y) as i64 }
}

/// Where node `i` lies, seen from `origin`.
pub open spec fn local(nodes: Seq<Node>, origin: Point, i: int) -> Vector {
    between(origin, nodes[i].position)
}

/// The vector from node `i` toward the next node, as long as node `i` is
/// wide.
pub open spec fn along(nodes: Seq<Node>, i: int) -> Vector {
    scaled(between(nodes[i].position, nodes[i + 1].position), nodes[i].radius as int)
}

/// The point of the left edge at node `i`.
pub open spec fn left_point(nodes: Seq<Node>, origin: Point, i: int) -> Planar {
    at(local(nodes, origin, i), along(nodes, i).perp())
}

/// The point of the right edge at node `i`.
pub open spec fn right_point(nodes: Seq<Node>, origin: Point, i: int) -> Planar {
    at(local(nodes, origin, i), along(nodes, i).perp().neg())
}

/// The point a radius before node `i`, away from the next node.
pub open spec fn front_point(nodes: Seq<Node>, origin: Point, i: int) -> Planar {
    at(local(nodes, origin, i), along(nodes, i).neg())
}

/// The closing point of node `i`. It is the point of the left edge.
pub open spec fn back_point(nodes: Seq<Node>, origin: Point, i: int) -> Planar {
    at(local(nodes, origin, i), along(nodes, i).perp())
}

/// Point `k` of the fan round the nose on the left side: a radius from the
/// head, where the way to the front is turned clockwise by the angle of `k`.
pub open spec fn fan_left(nodes: Seq<Node>, origin: Point, k: int) -> Planar {
    at(local(nodes, origin, 0), turned(along(nodes, 0), fan_cos(k), -fan_sin(k)).neg())
}

/// Point `k` of the fan round the nose on the right side: a radius from the
/// head, where the way to the front is turned counterclockwise by the angle
/// of `k`.
pub open spec fn fan_right(nodes: Seq<Node>, origin: Point, k: int) -> Planar {
    at(local(nodes, origin, 0), turned(along(nodes, 0), fan_cos(k), fan_sin(k)).neg())
}

/// The vector from the node before the tail toward the tail, as long as the
/// tail is wide.
pub open spec fn tail_along(nodes: Seq<Node>) -> Vector {
    let last = nodes.len() - 1;
    scaled(between(nodes[last - 1].position, nodes[last].position), nodes[last].radius as int)
}

/// The point of the left edge at the tail.
pub open spec fn tail_left(nodes: Seq<Node>, origin: Point) -> Planar {
    at(local(nodes, origin, nodes.len() - 1), tail_along(nodes).perp())
}

/// The point of the right edge at the tail.
pub open spec fn tail_right(nodes: Seq<Node>, origin: Point) -> Planar {
    at(local(nodes, origin, nodes.len() - 1), tail_along(nodes).perp().neg())
}

/// The cap: the point a radius behind the tail.
pub open spec fn tail_back(nodes: Seq<Node>, origin: Point) -> Planar {
    at(local(nodes, origin, nodes.len() - 1), tail_along(nodes))
}

/// The left edge along the first `segments` segments: the fan, then one
/// point for each node that begins a segment.
pub open spec fn left_edge(nodes: Seq<Node>, origin: Point, segments: int) -> Seq<Planar> {
    Seq::new(FAN as nat, |k: int| fan_left(nodes, origin, k)) + Seq::new(
        segments as nat,
        |i: int| left_point(nodes, origin, i),
    )
}

/// The right edge along the first `segments` segments.
pub open spec fn right_edge(nodes: Seq<Node>, origin: Point, segments: int) -> Seq<Planar> {
    Seq::new(FAN as nat, |k: int| fan_right(nodes, origin, k)) + Seq::new(
        segments as nat,
        |i: int| right_point(nodes, origin, i),
    )
}

/// The boundary points of the first `segments` segments: for each, its front
/// point and then its closing point.
pub open spec fn boundary_edge(nodes: Seq<Node>, origin: Point, segments: int) -> Seq<Planar> {
    Seq::new(
        (2 * segments) as nat,
        |k: int|
            if k % 2 == 0 {
                front_point(nodes, origin, k / 2)
            } else {
                back_point(nodes, origin, k / 2)
            },
    )
}

/// The three point lists of a chain, each in the order of the walk from the
/// head to the tail.
pub struct Outline {
    pub left: Vec<Planar>,
    pub right: Vec<Planar>,
    pub boundary: Vec<Planar>,
}

/// Whether `outline` holds the points of `nodes` seen from `origin`: both
/// edges and the boundary along every segment, each closed by its point at
/// the tail. A chain of fewer than two nodes has no segment and no points.
pub open spec fn is_outline(outline: Outline, nodes: Seq<Node>, origin: Point) -> bool {
    if nodes.len() < 2 {
        outline.left@.len() == 0 && outline.right@.len() == 0 && outline.boundary@.len() == 0
    } else {
        let segments = nodes.len() - 1;
        &&& outline.left@ == left_edge(nodes, origin, segments).push(tail_left(nodes, origin))
        &&& outline.right@ == right_edge(nodes, origin, segments).push(tail_right(nodes, origin))
        &&& outline.boundary@ == boundary_edge(nodes, origin, segments).push(
            tail_back(nodes, origin),
        )
    }
}

/// The closed outline: the left edge from the nose to the tail, the cap, the
/// right edge back from the tail to the nose, and the front point of the
/// head. The last point is not the first: whoever fills the outline closes
/// it.
pub open spec fn skin_of(nodes: Seq<Node>, origin: Point) -> Seq<Planar> {
    if nodes.len() < 2 {
        Seq::empty()
    } else {
        let segments = nodes.len() - 1;
        let left = left_edge(nodes, origin, segments).push(tail_left(nodes, origin));
        let right = right_edge(nodes, origin, segments).push(tail_right(nodes, origin));
        left + right.push(tail_back(nodes, origin)).reverse().push(front_point(nodes, origin, 0))
    }
}

/// The outline of a chain of `n` nodes has `2 * n + 10` points: one on each
/// side for every node, four on each side in the fan, the cap and the front
/// point.
pub proof fn lemma_skin_len(nodes: Seq<Node>, origin: Point)
    ensures
        nodes.len() >= 2 ==> skin_of(nodes, origin).len() == 2 * nodes.len() + 10,
        nodes.len() < 2 ==> skin_of(nodes, origin).len() == 0,
{
}

/// The cosine and the sine of the angle of fan point `k`, over `UNIT`.
fn fan_rotation(k: usize) -> (r: (i64, i64))
    requires
        k < FAN,
    ensures
        r.0 == fan_cos(k as int),
        r.1 == fan_sin(k as int),
        0 <= r.0 <= 0x4000_0000,
        0 <= r.1 <= 0x4000_0000,
{
    if k == 0 {
        (1037154958, 277904833)
    } else if k == 1 {
        (929887696, 536870912)
    } else if k == 2 {
        (759250124, 759250124)
    } else {
        (536870912, 929887696)
    }
}

/// The point at `v` from `o`.
fn place(o: &Planar, x: i64, y: i64) -> (p: Planar)
    requires
        o@.in_span(),
        -0x2_0000_0000 <= x <= 0x2_0000_0000,
        -0x2_0000_0000 <= y <= 0x2_0000_0000,
    ensures
        p == at(o@, (Vector { x: x as int, y: y as int })),
{
    Planar { x: o.x + x, y: o.y + y }
}

/// `points` in the opposite order.
fn reversed(points: &Vec<Planar>) -> (r: Vec<Planar>)
    ensures
        r@ == points@.reverse(),
{
    let mut r: Vec<Planar> = Vec::new();
    let mut i: usize = points.len();
    while i > 0
        invariant
            i <= points@.len(),
            r@.len() == points@.len() - i,
            forall|j: int| 0 <= j < r@.len() ==> r@[j] == points@[points@.len() - 1 - j],
        decreases i,
    {
        i -= 1;
        r.push(points[i]);
    }
    assert(r@ =~= points@.reverse());
    r
}

/// Walks the chain from the head to the tail and gathers the points of both
/// edges and of the boundary, seen from `origin`.
pub fn trace(nodes: &Vec<Node>, origin: &Point) -> (outline: Outline)
    ensures
        is_outline(outline, nodes@, *origin),
{
    let mut left: Vec<Planar> = Vec::new();
    let mut right: Vec<Planar> = Vec::new();
    let mut boundary: Vec<Planar> = Vec::new();
    let count = nodes.len();
    if count < 2 {
        return Outline { left, right, boundary };
    }
    let head = nodes[0];
    let o = Planar::span(origin, &head.position);
    let u = Planar::span(&head.position, &nodes[1].position).scale_to(head.radius);
    let mut k: usize = 0;
    while k < FAN
        invariant
            k <= FAN,
            count == nodes@.len(),
            count >= 2,
            o@ == local(nodes@, *origin, 0),
            o@.in_span(),
            u@ == along(nodes@, 0),
            u@.in_span(),
            left@ == Seq::new(k as nat, |j: int| fan_left(nodes@, *origin, j)),
            right@ == Seq::new(k as nat, |j: int| fan_right(nodes@, *origin, j)),
        decreases FAN - k,
    {
        let (cos, sin) = fan_rotation(k);
        let to_right = u.turn(cos, sin);
        let to_left = u.turn(cos, -sin);
        proof {
            lemma_turned_span(u@, cos as int, sin as int);
            lemma_turned_span(u@, cos as int, -sin as int);
        }
        let ghost left_before = left@;
        let ghost right_before = right@;
        right.push(place(&o, -to_right.x, -to_right.y));
        left.push(place(&o, -to_left.x, -to_left.y));
        k += 1;
        assert(left@ =~= Seq::new(k as nat, |j: int| fan_left(nodes@, *origin, j)));
        assert(right@ =~= Seq::new(k as nat, |j: int| fan_right(nodes@, *origin, j)));
    }
    assert(left@ =~= left_edge(nodes@, *origin, 0));
    assert(right@ =~= right_edge(nodes@, *origin, 0));
    assert(boundary@ =~= boundary_edge(nodes@, *origin, 0));
    let mut i: usize = 0;
    while i < count - 1
        invariant
            i <= count - 1,
            count == nodes@.len(),
            count >= 2,
            left@ == left_edge(nodes@, *origin, i as int),
            right@ == right_edge(nodes@, *origin, i as int),
            boundary@ == boundary_edge(nodes@, *origin, i as int),
        decreases count - i,
    {
        let head = nodes[i];
        let o = Planar::span(origin, &head.position);
        let u = Planar::span(&head.position, &nodes[i + 1].position).scale_to(head.radius);
        left.push(place(&o, -u.y, u.x));
        right.push(place(&o, u.y, -u.x));
        boundary.push(place(&o, -u.x, -u.y));
        boundary.push(place(&o, -u.y, u.x));
        i += 1;
        assert(left@ =~= left_edge(nodes@, *origin, i as int));
        assert(right@ =~= right_edge(nodes@, *origin, i as int));
        assert(boundary@ =~= boundary_edge(nodes@, *origin, i as int));
    }
    let tail = nodes[count - 1];
    let o = Planar::span(origin, &tail.position);
    let u = Planar::span(&nodes[count - 2].position, &tail.position).scale_to(tail.radius);
    left.push(place(&o, -u.y, u.x));
    right.push(place(&o, u.y, -u.x));
    boundary.push(place(&o, u.x, u.y));
    Outline { left, right, boundary }
}

/// Builds the closed outline of the chain, seen from `origin`, and keeps it
/// in `skin`.
pub fn compute_skin(squeleton: &mut KinematicChain, origin: &Point)
    ensures
        final(squeleton).skin@ == skin_of(old(squeleton).nodes@, *origin),
        old(squeleton).is_chain() ==> final(squeleton).skin@.len() == 2 * old(squeleton).nodes@.len() + 10,
        final(squeleton).nodes@ == old(squeleton).nodes@,
        final(squeleton).anchor == old(squeleton).anchor,
        final(squeleton).target == old(squeleton).target,
        final(squeleton).distance == old(squeleton).distance,
{
    let outline = trace(&squeleton.nodes, origin);
    let mut skin_left = outline.left;
    let mut skin_right = outline.right;
    let skin_head_tail = outline.boundary;
    let marks = skin_head_tail.len();
    if marks > 0 {
        skin_right.push(skin_head_tail[marks - 1]);
    }
    let mut skin_right = reversed(&skin_right);
    if marks > 0 {
        skin_right.push(skin_head_tail[0]);
    }
    skin_left.append(&mut skin_right);
    proof {
        lemma_skin_len(squeleton.nodes@, *origin);
        assert(skin_left@ =~= skin_of(squeleton.nodes@, *origin));
    }
    squeleton.skin = skin_left;
}

} // verus!
