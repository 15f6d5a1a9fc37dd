//! The chain itself: its nodes, its rest length, what drives it, and the two
//! ways to lay one out.

use crate::planar::{Planar, Point};
use vstd::prelude::*;

verus! {

/// One cross-section of a body: where it is and how wide.
#[derive(Clone, Copy, Debug, PartialEq, Eq, Structural)]
pub struct Node {
    pub position: Point,
    pub radius: u32,
}

impl Node {
    /// The node moved to `position`.
    pub open spec fn moved_to(self, position: Point) -> Node {
        Node { position, radius: self.radius }
    }
}

/// Why a chain cannot be made or solved.
#[derive(Clone, Copy, Debug, PartialEq, Eq, Structural)]
pub enum ChainError {
    /// Fewer than two nodes.
    DegenerateChain,
    /// The straight layout would leave the coordinate grid.
    OffGrid,
}

/// A spine or a limb: nodes from head to tail, kept no farther apart than
/// `distance`, with the head drawn to `target` and the tail, if `anchor` is
/// set, pinned there. `skin` is the outline of the last solve.
#[derive(Debug)]
pub struct KinematicChain {
    pub anchor: Option<Point>,
    pub target: Point,
    pub nodes: Vec<Node>,
    pub distance: u32,
    pub skin: Vec<Planar>,
}

/// Where node `i` of a fresh chain lies: on the second axis, `i` rest
/// lengths from the origin.
pub open spec fn initial_position(i: int, distance: int) -> Point {
    Point { x: 0, y: (i * distance) as i32, z: 0 }
}

/// The radius of node `i` in a tapered chain of `count` nodes: over the first
/// sixth of the chain it rises by an eighth of the rest length per node, up
/// to one node short of `count` eighths; from there it falls by as much per
/// node, down to one eighth at the tail.
pub open spec fn taper_radius(i: int, count: int, distance: int) -> int {
    let nose = count / 6;
    if i < nose {
        ((i + count - nose) * distance) / 8
    } else {
        ((count - i) * distance) / 8
    }
}

/// Whether the point `steps` rest lengths from the origin along the second
/// axis lies on the grid, and with it every node before it.
pub open spec fn axis_on_grid(steps: int, distance: int) -> bool {
    steps * distance <= i32::MAX
}

/// Whether `nodes` is the straight layout of `count` nodes with the radii
/// that `radius` gives.
pub open spec fn is_layout(
    nodes: Seq<Node>,
    count: int,
    distance: int,
    radius: spec_fn(int) -> int,
) -> bool {
    &&& nodes.len() == count
    &&& forall|i: int|
        0 <= i < count ==> (#[trigger] nodes[i]).position == initial_position(i, distance)
            && nodes[i].radius == radius(i)
}

/// Whether the point `count` rest lengths along the axis lies on the grid.
fn fits_grid(count: usize, distance: u32) -> (ok: bool)
    ensures
        ok == axis_on_grid(count as int, distance as int),
{
    if distance == 0 {
        assert(count * 0 == 0);
        true
    } else if count > 0x7fff_ffff {
        assert(count * distance > i32::MAX) by (nonlinear_arith)
            requires
                count > 0x7fff_ffff,
                distance >= 1,
        ;
        false
    } else {
        assert(count * distance <= 0x7fff_ffff * 0xffff_ffff) by (nonlinear_arith)
            requires
                0 <= count <= 0x7fff_ffff,
                0 <= distance <= 0xffff_ffff,
        ;
        (count as u64) * (distance as u64) <= 0x7fff_ffff
    }
}

/// `i * distance` as a grid coordinate.
fn along_axis(i: usize, count: usize, distance: u32) -> (y: i32)
    requires
        i <= count,
        axis_on_grid(count as int, distance as int),
    ensures
        y == i * distance,
{
    assert(0 <= i * distance <= count * distance) by (nonlinear_arith)
        requires
            0 <= i <= count,
            0 <= distance,
    ;
    if distance == 0 {
        assert(i * 0 == 0);
        0
    } else {
        assert(count <= 0x7fff_ffff) by (nonlinear_arith)
            requires
                count * distance <= 0x7fff_ffff,
                distance >= 1,
                count >= 0,
        ;
        ((i as u64) * (distance as u64)) as i32
    }
}

impl KinematicChain {
    /// Whether the chain has the two nodes that every solve needs.
    pub open spec fn is_chain(&self) -> bool {
        self.nodes@.len() >= 2
    }

    /// A chain of `count` nodes of one radius, the rest length: laid out
    /// straight from the origin, with the target at the origin. It is
    /// refused if it has fewer than two nodes, or if its tail would lie off
    /// the grid.
    pub fn new(count: usize, distance: u32, anchor: Option<Point>) -> (made: Result<
        KinematicChain,
        ChainError,
    >)
        ensures
            count < 2 ==> made == Err::<KinematicChain, ChainError>(ChainError::DegenerateChain),
            count >= 2 && !axis_on_grid(count - 1, distance as int) ==> made == Err::<
                KinematicChain,
                ChainError,
            >(ChainError::OffGrid),
            count >= 2 && axis_on_grid(count - 1, distance as int) ==> made is Ok,
            made matches Ok(chain) ==> {
                &&& is_layout(chain.nodes@, count as int, distance as int, |i: int| distance as int)
                &&& chain.target == (Point { x: 0, y: 0, z: 0 })
                &&& chain.anchor == anchor
                &&& chain.distance == distance
                &&& chain.skin@.len() == 0
            },
    {
        if count < 2 {
            return Err(ChainError::DegenerateChain);
        }
        let tail: usize = count - 1;
        if !fits_grid(tail, distance) {
            return Err(ChainError::OffGrid);
        }
        let mut nodes: Vec<Node> = Vec::new();
        let mut n: usize = 0;
        while n < count
            invariant
                n <= count,
                tail == count - 1,
                axis_on_grid(tail as int, distance as int),
                is_layout(nodes@, n as int, distance as int, |i: int| distance as int),
            decreases count - n,
        {
            let y = along_axis(n, tail, distance);
            nodes.push(Node { position: Point { x: 0, y, z: 0 }, radius: distance });
            n += 1;
        }
        Ok(
            KinematicChain {
                anchor,
                target: Point { x: 0, y: 0, z: 0 },
                nodes,
                distance,
                skin: Vec::new(),
            },
        )
    }

    /// A chain of `count` nodes shaped like a fish: a head that widens over
    /// the first sixth of the nodes, then a body that narrows evenly to the
    /// tail. Laid out straight from the origin, with the target one rest
    /// length past the tail. It is refused if it has fewer than two nodes,
    /// or if that target would lie off the grid.
    pub fn fish_like(count: usize, distance: u32, anchor: Option<Point>) -> (made: Result<
        KinematicChain,
        ChainError,
    >)
        ensures
            count < 2 ==> made == Err::<KinematicChain, ChainError>(ChainError::DegenerateChain),
            count >= 2 && !axis_on_grid(count as int, distance as int) ==> made == Err::<
                KinematicChain,
                ChainError,
            >(ChainError::OffGrid),
            count >= 2 && axis_on_grid(count as int, distance as int) ==> made is Ok,
            made matches Ok(chain) ==> {
                &&& is_layout(
                    chain.nodes@,
                    count as int,
                    distance as int,
                    |i: int| taper_radius(i, count as int, distance as int),
                )
                &&& chain.target == initial_position(count as int, distance as int)
                &&& chain.anchor == anchor
                &&& chain.distance == distance
                &&& chain.skin@.len() == 0
            },
    {
        if count < 2 {
            return Err(ChainError::DegenerateChain);
        }
        if !fits_grid(count, distance) {
            return Err(ChainError::OffGrid);
        }
        let nose: usize = count / 6;
        let mut nodes: Vec<Node> = Vec::new();
        let mut n: usize = 0;
        while n < count
            invariant
                n <= count,
                nose == count / 6,
                axis_on_grid(count as int, distance as int),
                is_layout(
                    nodes@,
                    n as int,
                    distance as int,
                    |i: int| taper_radius(i, count as int, distance as int),
                ),
            decreases count - n,
        {
            let y = along_axis(n, count, distance);
            let eighths: usize = if n < nose {
                n + (count - nose)
            } else {
                count - n
            };
            assert(0 <= eighths * distance <= 2 * (count * distance)) by (nonlinear_arith)
                requires
                    0 <= eighths <= 2 * count,
                    0 <= distance,
            ;
            let radius: u32 = (((eighths as u64) * (distance as u64)) / 8) as u32;
            nodes.push(Node { position: Point { x: 0, y, z: 0 }, radius });
            n += 1;
        }
        let y = along_axis(count, count, distance);
        Ok(
            KinematicChain {
                anchor,
                target: Point { x: 0, y, z: 0 },
                nodes,
                distance,
                skin: Vec::new(),
            },
        )
    }
}

/// The shape of a tapered chain: over the head the radius does not fall
/// from one node to the next, and from the end of the head to the tail it
/// does not rise; it is a whole eighth of the rest length, rounded down,
/// everywhere.
pub proof fn lemma_taper_shape(i: int, j: int, count: int, distance: int)
    requires
        0 <= i <= j < count,
        0 <= distance,
    ensures
        j < count / 6 ==> taper_radius(i, count, distance) <= taper_radius(j, count, distance),
        count / 6 <= i ==> taper_radius(i, count, distance) >= taper_radius(j, count, distance),
        0 <= taper_radius(i, count, distance) <= (count * distance) / 8,
{
    let nose = count / 6;
    let eighths = |k: int|
        if k < nose {
            k + count - nose
        } else {
            count - k
        };
    assert(0 <= eighths(i) * distance <= count * distance) by (nonlinear_arith)
        requires
            0 <= eighths(i) <= count,
            0 <= distance,
    ;
    if j < nose {
        assert(eighths(i) * distance <= eighths(j) * distance) by (nonlinear_arith)
            requires
                eighths(i) <= eighths(j),
                0 <= distance,
        ;
    }
    if nose <= i {
        assert(eighths(i) * distance >= eighths(j) * distance) by (nonlinear_arith)
            requires
                eighths(i) >= eighths(j),
                0 <= distance,
        ;
    }
}

} // verus!
