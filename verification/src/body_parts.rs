//! Where the ornaments of a body go: fins, eyes and the roots of legs sit on
//! the outline at a node, on one side of the chain or on its back, and turn
//! with the chain.

use crate::chain::{KinematicChain, Node};
use crate::numeric::{
    floor_sqrt, isqrt, lemma_floor_sqrt, lemma_floor_sqrt_monotone, lemma_floor_sqrt_square,
};
use crate::planar::{between, displaced, scaled, turned, Planar, Point, Vector, SPAN, UNIT};
use crate::rounding::{lemma_scaled_within, lemma_turned_span};
use vstd::prelude::*;

verus! {

/// The side of the body that a part is attached to.
#[derive(Clone, Copy, Debug, PartialEq, Eq, Structural)]
pub enum BodyPartPosition {
    Dorsal,
    Left,
    Right,
}

impl Default for BodyPartPosition {
    fn default() -> (side: BodyPartPosition)
        ensures
            side == BodyPartPosition::Dorsal,
    {
        BodyPartPosition::Dorsal
    }
}

/// A fin: the node it is attached to, and its side.
#[derive(Clone, Copy, Debug, PartialEq, Eq, Structural)]
pub struct Fin {
    pub anchor: usize,
    pub position: BodyPartPosition,
}

/// An eye: the node it is attached to, and its side.
#[derive(Clone, Copy, Debug, PartialEq, Eq, Structural)]
pub struct Eye {
    pub anchor: usize,
    pub position: BodyPartPosition,
}

/// A leg: the node of the body that its root is attached to, and its side.
#[derive(Clone, Copy, Debug, PartialEq, Eq, Structural)]
pub struct Leg {
    pub anchor: usize,
    pub position: BodyPartPosition,
}

/// Where a part sits and which way it faces. The heading is a vector of
/// length `UNIT`, or zero where the chain has no direction.
#[derive(Clone, Copy, Debug, PartialEq, Eq, Structural)]
pub struct Placement {
    pub position: Point,
    pub heading: Planar,
}

/// A point on the outline and a direction of length `UNIT` from it.
#[derive(Clone, Copy, Debug, PartialEq, Eq, Structural)]
pub struct BodyRay {
    pub origin: Point,
    pub direction: Planar,
}

/// The depth of a part that is drawn over the body.
pub const ABOVE: i32 = 1;

/// The depth of a part that is drawn under the body.
pub const BELOW: i32 = -1;

/// The cosine of 36 degrees, the slant of a side fin, over `UNIT`.
pub const FIN_COS: i64 = 868675383;

/// The sine of 36 degrees, over `UNIT`.
pub const FIN_SIN: i64 = 631129608;

/// The cosine of 0.2 radians, the squint of a side eye, over `UNIT`.
pub const EYE_COS: i64 = 1052338474;

/// The sine of 0.2 radians, over `UNIT`.
pub const EYE_SIN: i64 = 213319569;

/// The direction of `v`, as a vector of length `UNIT`.
pub open spec fn heading_of(v: Vector) -> Planar {
    Planar::of(scaled(v, UNIT as int))
}

/// The direction of `v` turned counterclockwise by the angle of `cos` and
/// `sin`, as a vector of length `UNIT`.
pub open spec fn slanted(v: Vector, cos: int, sin: int) -> Planar {
    Planar::of(turned(scaled(v, UNIT as int), cos, sin))
}

/// The way along the chain at `node`: from the node before it, `head`.
pub open spec fn way(node: Node, head: Node) -> Vector {
    between(head.position, node.position)
}

/// The step from the chain's axis to its left edge: a quarter turn
/// counterclockwise from the way along the chain, `radius` long.
pub open spec fn to_left(node: Node, head: Node, radius: int) -> Vector {
    scaled(way(node, head), radius).perp()
}

/// `p` at depth `z`.
pub open spec fn at_depth(p: Point, z: i32) -> Point {
    Point { x: p.x, y: p.y, z }
}

/// Where a part attached at `node` sits. On the back it sits on the node,
/// above the body; on a side it sits a radius of the node to that side of
/// the node before it, `head`, below the body. It faces a quarter turn from
/// the way along the chain: clockwise on the back and on the left,
/// counterclockwise on the right.
pub open spec fn attachment(node: Node, head: Node, side: BodyPartPosition) -> Placement {
    let d = way(node, head);
    let off = to_left(node, head, node.radius as int);
    match side {
        BodyPartPosition::Dorsal => Placement {
            position: at_depth(node.position, ABOVE),
            heading: heading_of(d.perp().neg()),
        },
        BodyPartPosition::Left => Placement {
            position: displaced(head.position, off, BELOW),
            heading: heading_of(d.perp().neg()),
        },
        BodyPartPosition::Right => Placement {
            position: displaced(head.position, off.neg(), BELOW),
            heading: heading_of(d.perp()),
        },
    }
}

/// Where a fin attached at `node` sits: where any part does. A fin on the
/// back faces a quarter turn clockwise from the way along the chain; a side
/// fin is slanted 36 degrees from that way, clockwise on the left and
/// counterclockwise on the right.
pub open spec fn fin_attachment(node: Node, head: Node, side: BodyPartPosition) -> Placement {
    let d = way(node, head);
    let base = attachment(node, head, side);
    match side {
        BodyPartPosition::Dorsal => base,
        BodyPartPosition::Left => Placement {
            position: base.position,
            heading: slanted(d, FIN_COS as int, -FIN_SIN),
        },
        BodyPartPosition::Right => Placement {
            position: base.position,
            heading: slanted(d, FIN_COS as int, FIN_SIN as int),
        },
    }
}

/// Three quarters of `radius`, rounded down: how far from the axis an eye
/// sits.
pub open spec fn eye_inset(radius: int) -> int {
    (radius * 3) / 4
}

/// Where an eye attached at `node` sits: above the body, on the back on the
/// node itself, and on a side three quarters of the node's radius to that
/// side of the node before it. It faces a quarter turn counterclockwise from
/// the way along the chain, and a side eye squints 0.2 radians further:
/// counterclockwise on the left, clockwise on the right.
pub open spec fn eye_attachment(node: Node, head: Node, side: BodyPartPosition) -> Placement {
    let d = way(node, head);
    let off = to_left(node, head, eye_inset(node.radius as int));
    match side {
        BodyPartPosition::Dorsal => Placement {
            position: at_depth(node.position, ABOVE),
            heading: heading_of(d.perp()),
        },
        BodyPartPosition::Left => Placement {
            position: displaced(head.position, off, ABOVE),
            heading: slanted(d.perp(), EYE_COS as int, EYE_SIN as int),
        },
        BodyPartPosition::Right => Placement {
            position: displaced(head.position, off.neg(), ABOVE),
            heading: slanted(d.perp(), EYE_COS as int, -EYE_SIN),
        },
    }
}

/// The ray that leaves the left edge at `node` outward, across the chain.
pub open spec fn body_direction(node: Node, head: Node) -> BodyRay {
    BodyRay {
        origin: displaced(head.position, to_left(node, head, node.radius as int), head.position.z),
        direction: heading_of(way(node, head).perp()),
    }
}

/// The ray that leaves the left edge at `node` inward, across the chain.
pub open spec fn perpendicular_body_ray(node: Node, head: Node) -> BodyRay {
    BodyRay {
        origin: displaced(head.position, to_left(node, head, node.radius as int), head.position.z),
        direction: heading_of(way(node, head).perp().neg()),
    }
}

/// The quarter turn counterclockwise of `v`.
fn quarter_turn(v: &Planar) -> (r: Planar)
    requires
        v@.in_span(),
    ensures
        r@ == v@.perp(),
        r@.in_span(),
{
    Planar { x: -v.y, y: v.x }
}

/// The opposite of `v`.
fn opposite(v: &Planar) -> (r: Planar)
    requires
        v@.in_span(),
    ensures
        r@ == v@.neg(),
        r@.in_span(),
{
    Planar { x: -v.x, y: -v.y }
}

/// The direction of `v`, as a vector of length `UNIT`.
fn heading(v: &Planar) -> (r: Planar)
    requires
        v@.in_span(),
    ensures
        r == heading_of(v@),
        r@.in_span(),
{
    v.scale_to(0x4000_0000)
}

/// The direction of `v`, turned, as a vector of length `UNIT`.
fn slant(v: &Planar, cos: i64, sin: i64) -> (r: Planar)
    requires
        v@.in_span(),
        -UNIT <= cos <= UNIT,
        -UNIT <= sin <= UNIT,
    ensures
        r == slanted(v@, cos as int, sin as int),
{
    let unit = v.scale_to(0x4000_0000);
    proof {
        lemma_turned_span(unit@, cos as int, sin as int);
    }
    unit.turn(cos, sin)
}

/// The two nodes that place a part attached at node `anchor`: that node and
/// the one before it. There are none for the head, which has no node before
/// it, nor past the tail.
pub fn attachment_nodes(squeleton: &KinematicChain, anchor: usize) -> (pair: Option<(Node, Node)>)
    ensures
        pair is Some <==> 1 <= anchor < squeleton.nodes@.len(),
        pair matches Some(p) ==> p.0 == squeleton.nodes@[anchor as int] && p.1
            == squeleton.nodes@[anchor - 1],
{
    if anchor >= 1 && anchor < squeleton.nodes.len() {
        Some((squeleton.nodes[anchor], squeleton.nodes[anchor - 1]))
    } else {
        None
    }
}

/// Where a part attached at `node` sits and faces; `head` is the node
/// before it.
pub fn get_attachment_position(node: &Node, head: &Node, part_type: &BodyPartPosition) -> (placed:
    Placement)
    ensures
        placed == attachment(*node, *head, *part_type),
{
    let d = Planar::span(&head.position, &node.position);
    let left = quarter_turn(&d.scale_to(node.radius));
    let across = quarter_turn(&d);
    match part_type {
        BodyPartPosition::Dorsal => Placement {
            position: Point { x: node.position.x, y: node.position.y, z: ABOVE },
            heading: heading(&opposite(&across)),
        },
        BodyPartPosition::Left => Placement {
            position: head.position.displace(&left, BELOW),
            heading: heading(&opposite(&across)),
        },
        BodyPartPosition::Right => Placement {
            position: head.position.displace(&opposite(&left), BELOW),
            heading: heading(&across),
        },
    }
}

/// Where a fin attached at `node` sits and faces.
pub fn fin_placement(node: &Node, head: &Node, side: &BodyPartPosition) -> (placed: Placement)
    ensures
        placed == fin_attachment(*node, *head, *side),
{
    let d = Planar::span(&head.position, &node.position);
    let base = get_attachment_position(node, head, side);
    match side {
        BodyPartPosition::Dorsal => base,
        BodyPartPosition::Left => Placement {
            position: base.position,
            heading: slant(&d, FIN_COS, -FIN_SIN),
        },
        BodyPartPosition::Right => Placement {
            position: base.position,
            heading: slant(&d, FIN_COS, FIN_SIN),
        },
    }
}

/// Where an eye attached at `node` sits and faces.
pub fn eye_placement(node: &Node, head: &Node, side: &BodyPartPosition) -> (placed: Placement)
    ensures
        placed == eye_attachment(*node, *head, *side),
{
    let d = Planar::span(&head.position, &node.position);
    let inset: u32 = (((node.radius as u64) * 3) / 4) as u32;
    let left = quarter_turn(&d.scale_to(inset));
    let across = quarter_turn(&d);
    match side {
        BodyPartPosition::Dorsal => Placement {
            position: Point { x: node.position.x, y: node.position.y, z: ABOVE },
            heading: heading(&across),
        },
        BodyPartPosition::Left => Placement {
            position: head.position.displace(&left, ABOVE),
            heading: slant(&across, EYE_COS, EYE_SIN),
        },
        BodyPartPosition::Right => Placement {
            position: head.position.displace(&opposite(&left), ABOVE),
            heading: slant(&across, EYE_COS, -EYE_SIN),
        },
    }
}

/// The ray that leaves the left edge at `node` outward.
pub fn get_body_direction(node: &Node, head: &Node) -> (ray: BodyRay)
    ensures
        ray == body_direction(*node, *head),
{
    let d = Planar::span(&head.position, &node.position);
    let left = quarter_turn(&d.scale_to(node.radius));
    BodyRay {
        origin: head.position.displace(&left, head.position.z),
        direction: heading(&quarter_turn(&d)),
    }
}

/// The ray that leaves the left edge at `node` inward.
pub fn get_perpendicular_body_ray(node: &Node, head: &Node) -> (ray: BodyRay)
    ensures
        ray == perpendicular_body_ray(*node, *head),
{
    let d = Planar::span(&head.position, &node.position);
    let left = quarter_turn(&d.scale_to(node.radius));
    BodyRay {
        origin: head.position.displace(&left, head.position.z),
        direction: heading(&opposite(&quarter_turn(&d))),
    }
}

/// How far the foot of a leg can be from its root: one rest length for each
/// of its segments, and no more than `SPAN`. A leg without nodes has no
/// segments.
pub open spec fn leg_reach(distance: int, count: int) -> int {
    let segments = if count > 0 {
        count - 1
    } else {
        0
    };
    if distance * segments > SPAN {
        SPAN as int
    } else {
        distance * segments
    }
}

/// The side of a square whose diagonal is `length` long, rounded down.
pub open spec fn leg_stride(length: int) -> int {
    floor_sqrt((length * length) / 2)
}

/// What leads from the root of a leg to its next foothold, where `d` is the
/// way along the chain: a stride back against that way and, for a leg on a
/// side, as long a stride across it to that side. The stride is that of
/// `leg_stride`, so the whole is no longer than `length`.
pub open spec fn leg_stretch(d: Vector, side: BodyPartPosition, length: int) -> Vector {
    let along = scaled(d, leg_stride(length));
    let across = along.perp();
    match side {
        BodyPartPosition::Left => Vector { x: across.x - along.x, y: across.y - along.y },
        BodyPartPosition::Right => Vector { x: -across.x - along.x, y: -across.y - along.y },
        BodyPartPosition::Dorsal => along.neg(),
    }
}

/// Where a leg rooted at `root` that has lost its footing steps to, on the
/// ground.
pub open spec fn leg_step(root: Point, d: Vector, side: BodyPartPosition, length: int) -> Point {
    displaced(root, leg_stretch(d, side, length), 0)
}

/// Whether `target` is farther than `length` from `root`.
pub open spec fn out_of_reach(target: Point, root: Point, length: int) -> bool {
    between(root, target).norm2() > length * length
}

/// Where the driver of a leg leaves its foot: where it is, if that is
/// within the leg's reach of the root, and at the next foothold if not.
pub open spec fn foothold(
    target: Point,
    root: Point,
    d: Vector,
    side: BodyPartPosition,
    length: int,
) -> Point {
    if out_of_reach(target, root, length) {
        leg_step(root, d, side, length)
    } else {
        target
    }
}

/// A step never leaves the leg's reach: the foothold lies within `length` of
/// the root.
pub proof fn lemma_leg_step_within(root: Point, d: Vector, side: BodyPartPosition, length: int)
    requires
        0 <= length,
    ensures
        !out_of_reach(leg_step(root, d, side, length), root, length),
{
    let half = (length * length) / 2;
    assert(0 <= length * length) by (nonlinear_arith);
    lemma_floor_sqrt(half);
    let stride = leg_stride(length);
    let along = scaled(d, stride);
    lemma_scaled_within(d, stride);
    let w = leg_stretch(d, side, length);
    assert(w.norm2() <= 2 * along.norm2()) by (nonlinear_arith)
        requires
            along.norm2() == along.x * along.x + along.y * along.y,
            w.norm2() == w.x * w.x + w.y * w.y,
            (w.x == -along.y - along.x && w.y == along.x - along.y) || (w.x == along.y - along.x
                && w.y == -along.x - along.y) || (w.x == -along.x && w.y == -along.y),
    ;
    let g = between(root, leg_step(root, d, side, length));
    assert(g.x * g.x <= w.x * w.x) by (nonlinear_arith)
        requires
            (0 <= g.x <= w.x) || (w.x <= g.x <= 0),
    ;
    assert(g.y * g.y <= w.y * w.y) by (nonlinear_arith)
        requires
            (0 <= g.y <= w.y) || (w.y <= g.y <= 0),
    ;
}

/// The driver moves the foot if and only if it was out of reach, and leaves
/// it within reach either way.
pub proof fn lemma_foothold(
    target: Point,
    root: Point,
    d: Vector,
    side: BodyPartPosition,
    length: int,
)
    requires
        0 <= length,
    ensures
        !out_of_reach(foothold(target, root, d, side, length), root, length),
        foothold(target, root, d, side, length) == target <==> !out_of_reach(target, root, length),
{
    lemma_leg_step_within(root, d, side, length);
}

/// How far the leg `leg` reaches.
fn reach_of(leg: &KinematicChain) -> (length: u32)
    ensures
        length == leg_reach(leg.distance as int, leg.nodes@.len() as int),
{
    let count = leg.nodes.len();
    let segments: usize = if count > 0 {
        count - 1
    } else {
        0
    };
    assert(0 <= leg.distance * segments <= 0xffff_ffff * 0xffff_ffff_ffff_ffff) by (nonlinear_arith)
        requires
            0 <= leg.distance <= 0xffff_ffff,
            0 <= segments <= 0xffff_ffff_ffff_ffff,
    ;
    let product: u128 = (leg.distance as u128) * (segments as u128);
    if product > 0xffff_ffff {
        0xffff_ffff
    } else {
        product as u32
    }
}

/// The side of a square whose diagonal is `length` long, rounded down.
fn stride_of(length: u32) -> (stride: u32)
    ensures
        stride == leg_stride(length as int),
{
    assert(0 <= length * length <= 0xffff_ffff * 0xffff_ffff) by (nonlinear_arith)
        requires
            0 <= length <= 0xffff_ffff,
    ;
    let square: u128 = (length as u128) * (length as u128);
    proof {
        lemma_floor_sqrt_monotone((square / 2) as int, square as int);
        lemma_floor_sqrt_square(length as int);
    }
    isqrt(square / 2) as u32
}

/// Roots a leg on the body and keeps its foot within reach. The leg's
/// anchor becomes the place of a part attached at `anchor_node` on the leg's
/// side; `anchor_head` is the node before that one. A target farther from
/// that anchor than the leg reaches becomes the leg's next foothold; any
/// other target stays.
pub fn place_leg(
    leg: &mut KinematicChain,
    anchor_node: &Node,
    anchor_head: &Node,
    position: &BodyPartPosition,
)
    ensures
        final(leg).anchor == Some(attachment(*anchor_node, *anchor_head, *position).position),
        final(leg).target == foothold(
            old(leg).target,
            attachment(*anchor_node, *anchor_head, *position).position,
            way(*anchor_node, *anchor_head),
            *position,
            leg_reach(old(leg).distance as int, old(leg).nodes@.len() as int),
        ),
        final(leg).target == old(leg).target <==> !out_of_reach(
            old(leg).target,
            attachment(*anchor_node, *anchor_head, *position).position,
            leg_reach(old(leg).distance as int, old(leg).nodes@.len() as int),
        ),
        !out_of_reach(
            final(leg).target,
            attachment(*anchor_node, *anchor_head, *position).position,
            leg_reach(old(leg).distance as int, old(leg).nodes@.len() as int),
        ),
        final(leg).nodes@ == old(leg).nodes@,
        final(leg).distance == old(leg).distance,
        final(leg).skin@ == old(leg).skin@,
{
    let placed = get_attachment_position(anchor_node, anchor_head, position);
    leg.anchor = Some(placed.position);
    let length = reach_of(leg);
    assert(0 <= length * length <= 0xffff_ffff * 0xffff_ffff) by (nonlinear_arith)
        requires
            0 <= length <= 0xffff_ffff,
    ;
    let limit: u128 = (length as u128) * (length as u128);
    let gap = Planar::span(&placed.position, &leg.target);
    proof {
        lemma_foothold(
            old(leg).target,
            placed.position,
            way(*anchor_node, *anchor_head),
            *position,
            length as int,
        );
    }
    if gap.norm2() > limit {
        let d = Planar::span(&anchor_head.position, &anchor_node.position);
        let along = d.scale_to(stride_of(length));
        let across = quarter_turn(&along);
        let stretch = match position {
            BodyPartPosition::Left => Planar { x: across.x - along.x, y: across.y - along.y },
            BodyPartPosition::Right => Planar { x: -across.x - along.x, y: -across.y - along.y },
            BodyPartPosition::Dorsal => opposite(&along),
        };
        leg.target = placed.position.displace(&stretch, 0);
    }
}

impl Fin {
    /// Where the fin sits and faces on `squeleton`; nowhere if the fin is
    /// attached at the head or past the tail.
    pub fn placement(&self, squeleton: &KinematicChain) -> (placed: Option<Placement>)
        ensures
            placed is Some <==> 1 <= self.anchor < squeleton.nodes@.len(),
            placed matches Some(at) ==> at == fin_attachment(
                squeleton.nodes@[self.anchor as int],
                squeleton.nodes@[self.anchor - 1],
                self.position,
            ),
    {
        match attachment_nodes(squeleton, self.anchor) {
            Some(pair) => Some(fin_placement(&pair.0, &pair.1, &self.position)),
            None => None,
        }
    }
}

impl Eye {
    /// Where the eye sits and faces on `squeleton`; nowhere if the eye is
    /// attached at the head or past the tail.
    pub fn placement(&self, squeleton: &KinematicChain) -> (placed: Option<Placement>)
        ensures
            placed is Some <==> 1 <= self.anchor < squeleton.nodes@.len(),
            placed matches Some(at) ==> at == eye_attachment(
                squeleton.nodes@[self.anchor as int],
                squeleton.nodes@[self.anchor - 1],
                self.position,
            ),
    {
        match attachment_nodes(squeleton, self.anchor) {
            Some(pair) => Some(eye_placement(&pair.0, &pair.1, &self.position)),
            None => None,
        }
    }
}

impl Leg {
    /// Roots the leg `limb` on the body `squeleton` and keeps its foot
    /// within reach, as `place_leg` does, and says where the root is. A leg
    /// attached at the head or past the tail has no root, and `limb` stays
    /// as it is.
    pub fn root(&self, squeleton: &KinematicChain, limb: &mut KinematicChain) -> (placed: Option<
        Placement,
    >)
        ensures
            placed is Some <==> 1 <= self.anchor < squeleton.nodes@.len(),
            final(limb).nodes@ == old(limb).nodes@,
            final(limb).distance == old(limb).distance,
            final(limb).skin@ == old(limb).skin@,
            placed is None ==> final(limb).anchor == old(limb).anchor && final(limb).target
                == old(limb).target,
            placed matches Some(at) ==> {
                let node = squeleton.nodes@[self.anchor as int];
                let head = squeleton.nodes@[self.anchor - 1];
                let length = leg_reach(old(limb).distance as int, old(limb).nodes@.len() as int);
                &&& at == attachment(node, head, self.position)
                &&& final(limb).anchor == Some(at.position)
                &&& final(limb).target == foothold(
                    old(limb).target,
                    at.position,
                    way(node, head),
                    self.position,
                    length,
                )
                &&& final(limb).target == old(limb).target <==> !out_of_reach(
                    old(limb).target,
                    at.position,
                    length,
                )
                &&& !out_of_reach(final(limb).target, at.position, length)
            },
    {
        match attachment_nodes(squeleton, self.anchor) {
            Some(pair) => {
                place_leg(limb, &pair.0, &pair.1, &self.position);
                Some(get_attachment_position(&pair.0, &pair.1, &self.position))
            },
            None => None,
        }
    }
}

} // verus!
