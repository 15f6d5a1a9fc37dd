//! The constraint solve: the head goes to the target, a forward pass pulls
//! each node after the one before it, a backward pass does the same from a
//! pinned tail, and bends beyond the limit are straightened, round after
//! round.

use crate::chain::{ChainError, KinematicChain, Node};
use crate::laws::{
    lemma_forward_taut, lemma_solved_bends, lemma_solved_keeps, lemma_solved_loose,
    lemma_solved_pins_tail, lemma_solved_reaches_target, lemma_solved_tail_near,
    lemma_solved_taut,
};
use crate::planar::{bend_within_limit, between, pulled, straightened, Point};
use crate::skin::{compute_skin, skin_of};
use vstd::prelude::*;

verus! {

/// `nodes` with node `i` moved to `p`.
pub open spec fn pinned(nodes: Seq<Node>, i: int, p: Point) -> Seq<Node> {
    nodes.update(i, nodes[i].moved_to(p))
}

/// Whether nodes `i` and `i + 1` are no farther apart than `len`.
pub open spec fn pair_within(nodes: Seq<Node>, len: int, i: int) -> bool {
    between(nodes[i].position, nodes[i + 1].position).norm2() <= len * len
}

/// Whether no two neighbours are farther apart than `len`.
pub open spec fn taut(nodes: Seq<Node>, len: int) -> bool {
    forall|i: int| 0 <= i && i + 1 < nodes.len() ==> pair_within(nodes, len, i)
}

/// Whether no two neighbours are farther apart than `len`, but for nodes
/// `k` and `k + 1`, of which nothing is asked.
pub open spec fn taut_but(nodes: Seq<Node>, len: int, k: int) -> bool {
    forall|i: int| 0 <= i && i + 1 < nodes.len() && i != k ==> pair_within(nodes, len, i)
}

/// The forward pass from node `i` on: node `i + 1` is pulled after node
/// `i`, then node `i + 2` after the new node `i + 1`, and so on to the tail.
pub open spec fn forward_from(nodes: Seq<Node>, len: int, i: int) -> Seq<Node>
    decreases nodes.len() - i,
{
    if 0 <= i && i + 1 < nodes.len() {
        forward_from(
            pinned(nodes, i + 1, pulled(nodes[i].position, nodes[i + 1].position, len)),
            len,
            i + 1,
        )
    } else {
        nodes
    }
}

/// The whole forward pass, from the head.
pub open spec fn forward(nodes: Seq<Node>, len: int) -> Seq<Node> {
    forward_from(nodes, len, 0)
}

/// Whether two points lie at the same place of the plane.
pub open spec fn coincide(a: Point, b: Point) -> bool {
    a.x == b.x && a.y == b.y
}

/// The backward pass from node `i` down: node `i - 1` is pulled after node
/// `i`, then node `i - 2` after the new node `i - 1`, and so on to the head.
/// The pass ends early at two nodes that coincide, for there is no
/// direction from one to the other.
pub open spec fn backward_from(nodes: Seq<Node>, len: int, i: int) -> Seq<Node>
    decreases i,
{
    if 0 < i < nodes.len() && !coincide(nodes[i].position, nodes[i - 1].position) {
        backward_from(
            pinned(nodes, i - 1, pulled(nodes[i].position, nodes[i - 1].position, len)),
            len,
            i - 1,
        )
    } else {
        nodes
    }
}

/// The whole backward pass, from the tail.
pub open spec fn backward(nodes: Seq<Node>, len: int) -> Seq<Node> {
    backward_from(nodes, len, nodes.len() - 1)
}

/// Whether the chain bends at node `i + 1` by no more than the limit.
pub open spec fn bend_ok_at(nodes: Seq<Node>, i: int) -> bool {
    bend_within_limit(
        between(nodes[i].position, nodes[i + 1].position),
        between(nodes[i + 1].position, nodes[i + 2].position),
    )
}

/// Whether the chain bends nowhere by more than the limit.
pub open spec fn angles_ok(nodes: Seq<Node>) -> bool {
    forall|i: int| 0 <= i && i + 2 < nodes.len() ==> bend_ok_at(nodes, i)
}

/// Node `i` after the correction: every node from the third on goes where
/// the two nodes before it, as they were, say it belongs.
pub open spec fn corrected_node(nodes: Seq<Node>, i: int) -> Node {
    if 2 <= i < nodes.len() {
        nodes[i].moved_to(
            straightened(nodes[i - 2].position, nodes[i - 1].position, nodes[i].position),
        )
    } else {
        nodes[i]
    }
}

/// The chain after the correction of all its bends at once: each from the
/// nodes as they were before any of them moved.
pub open spec fn corrected(nodes: Seq<Node>) -> Seq<Node> {
    Seq::new(nodes.len(), |i: int| corrected_node(nodes, i))
}

/// The chain after the head went to `target`, the forward pass, and, with an
/// anchor, the tail pinned to it and the backward pass.
pub open spec fn constrained(
    nodes: Seq<Node>,
    target: Point,
    anchor: Option<Point>,
    len: int,
) -> Seq<Node> {
    let drawn = forward(pinned(nodes, 0, target), len);
    match anchor {
        Some(a) => backward(pinned(drawn, drawn.len() - 1, a), len),
        None => drawn,
    }
}

/// The most rounds that one solve takes.
pub const ROUNDS: usize = 10;

/// What a solve comes to: the nodes, the rounds it took, and whether the
/// last round found every bend within the limit.
pub struct Solved {
    pub nodes: Seq<Node>,
    pub iterations: nat,
    pub converged: bool,
}

/// The solve of at most `rounds` rounds. A round constrains the chain; if no
/// bend is then beyond the limit the solve ends there, else the bends are
/// corrected and the next round begins.
pub open spec fn solved(
    nodes: Seq<Node>,
    target: Point,
    anchor: Option<Point>,
    len: int,
    rounds: nat,
) -> Solved
    decreases rounds,
{
    if rounds == 0 {
        Solved { nodes, iterations: 0, converged: false }
    } else {
        let held = constrained(nodes, target, anchor, len);
        if angles_ok(held) {
            Solved { nodes: held, iterations: 1, converged: true }
        } else {
            let rest = solved(corrected(held), target, anchor, len, (rounds - 1) as nat);
            Solved {
                nodes: rest.nodes,
                iterations: rest.iterations + 1,
                converged: rest.converged,
            }
        }
    }
}

/// How a solve went.
#[derive(Clone, Copy, Debug, PartialEq, Eq, Structural)]
pub struct SolveReport {
    /// The rounds taken, from 1 to `ROUNDS`.
    pub iterations: usize,
    /// Whether the last round found every bend within the limit. If not,
    /// the chain is as the last correction left it.
    pub converged: bool,
}

/// Whether `nodes` and `report` are what the solve of `start` comes to.
pub open spec fn is_solution(start: KinematicChain, nodes: Seq<Node>, report: SolveReport) -> bool {
    let s = solved(
        start.nodes@,
        start.target,
        start.anchor,
        start.distance as int,
        ROUNDS as nat,
    );
    &&& nodes == s.nodes
    &&& report.iterations == s.iterations
    &&& report.converged == s.converged
}

/// What holds of every solve. It keeps the number of nodes and takes from one
/// round to all of them. No two neighbours end farther apart than three rest
/// lengths. Without an anchor the head ends on the target; with one, the
/// tail ends within two rest lengths of it. A solve that ends with a bend
/// beyond the limit has taken every round; one that converged leaves no two
/// neighbours farther apart than the rest length, and the tail on the
/// anchor.
pub open spec fn is_settled(start: KinematicChain, nodes: Seq<Node>, report: SolveReport) -> bool {
    let len = start.distance as int;
    &&& nodes.len() == start.nodes@.len()
    &&& 1 <= report.iterations <= ROUNDS
    &&& !report.converged ==> report.iterations == ROUNDS
    &&& taut(nodes, 3 * len)
    &&& report.converged ==> taut(nodes, len) && angles_ok(nodes)
    &&& match start.anchor {
        Some(pin) => {
            let tail = nodes[nodes.len() - 1].position;
            &&& report.converged ==> tail == pin
            &&& between(pin, tail).norm2() <= (2 * len) * (2 * len)
        },
        None => nodes[0].position == start.target,
    }
}

/// Pulls each node after the one before it, from the head to the tail: a
/// node farther than the rest length from its forerunner comes to that
/// length from it, on the line between them; a nearer one stays. Afterwards
/// no two neighbours are farther apart than the rest length.
pub fn forward_kinematics(squeleton: &mut KinematicChain)
    ensures
        final(squeleton).nodes@ == forward(old(squeleton).nodes@, old(squeleton).distance as int),
        taut(final(squeleton).nodes@, old(squeleton).distance as int),
        final(squeleton).nodes@.len() == old(squeleton).nodes@.len(),
        final(squeleton).anchor == old(squeleton).anchor,
        final(squeleton).target == old(squeleton).target,
        final(squeleton).distance == old(squeleton).distance,
        final(squeleton).skin@ == old(squeleton).skin@,
{
    let len = squeleton.distance;
    let count = squeleton.nodes.len();
    let ghost start = squeleton.nodes@;
    proof {
        lemma_forward_taut(start, len as int);
    }
    if count < 2 {
        return ;
    }
    let mut i: usize = 0;
    while i < count - 1
        invariant
            2 <= count == squeleton.nodes@.len(),
            count == start.len(),
            len == squeleton.distance,
            forward_from(squeleton.nodes@, len as int, i as int) == forward(start, len as int),
            squeleton.anchor == old(squeleton).anchor,
            squeleton.target == old(squeleton).target,
            squeleton.distance == old(squeleton).distance,
            squeleton.skin@ == old(squeleton).skin@,
        decreases count - i,
    {
        let head = squeleton.nodes[i];
        let tail = squeleton.nodes[i + 1];
        let position = head.position.pull(&tail.position, len);
        squeleton.nodes.set(i + 1, Node { position, radius: tail.radius });
        i += 1;
    }
}

/// Pulls each node after the one behind it, from the tail to the head, and
/// stops at the first two nodes that coincide.
pub fn backward_kinematics(squeleton: &mut KinematicChain)
    ensures
        final(squeleton).nodes@ == backward(old(squeleton).nodes@, old(squeleton).distance as int),
        final(squeleton).nodes@.len() == old(squeleton).nodes@.len(),
        final(squeleton).anchor == old(squeleton).anchor,
        final(squeleton).target == old(squeleton).target,
        final(squeleton).distance == old(squeleton).distance,
        final(squeleton).skin@ == old(squeleton).skin@,
{
    let len = squeleton.distance;
    let count = squeleton.nodes.len();
    let ghost start = squeleton.nodes@;
    if count == 0 {
        return ;
    }
    let mut i: usize = count - 1;
    while i > 0
        invariant
            count == squeleton.nodes@.len(),
            count == start.len(),
            i < count,
            len == squeleton.distance,
            backward_from(squeleton.nodes@, len as int, i as int) == backward(start, len as int),
            squeleton.anchor == old(squeleton).anchor,
            squeleton.target == old(squeleton).target,
            squeleton.distance == old(squeleton).distance,
            squeleton.skin@ == old(squeleton).skin@,
        ensures
            squeleton.nodes@ == backward(start, len as int),
            count == squeleton.nodes@.len(),
            squeleton.anchor == old(squeleton).anchor,
            squeleton.target == old(squeleton).target,
            squeleton.distance == old(squeleton).distance,
            squeleton.skin@ == old(squeleton).skin@,
        decreases i,
    {
        let head = squeleton.nodes[i];
        let tail = squeleton.nodes[i - 1];
        if head.position.x == tail.position.x && head.position.y == tail.position.y {
            break ;
        }
        let position = head.position.pull(&tail.position, len);
        squeleton.nodes.set(i - 1, Node { position, radius: tail.radius });
        i -= 1;
    }
}

/// Whether the chain bends nowhere by more than the limit.
pub fn squeleton_angles_are_ok(squeleton: &KinematicChain) -> (ok: bool)
    ensures
        ok == angles_ok(squeleton.nodes@),
{
    let count = squeleton.nodes.len();
    if count < 3 {
        return true;
    }
    let mut i: usize = 0;
    while i < count - 2
        invariant
            3 <= count == squeleton.nodes@.len(),
            i <= count - 2,
            forall|j: int| 0 <= j < i ==> bend_ok_at(squeleton.nodes@, j),
        decreases count - i,
    {
        let n0 = squeleton.nodes[i].position;
        let n1 = squeleton.nodes[i + 1].position;
        let n2 = squeleton.nodes[i + 2].position;
        if !n0.bend_ok(&n1, &n2) {
            assert(!bend_ok_at(squeleton.nodes@, i as int));
            return false;
        }
        i += 1;
    }
    true
}

/// Corrects every bend beyond the limit: the node that ends the bend goes to
/// the end of the segment before it, turned by the limit to the side of the
/// bend and as long as the segment it ended. Every bend is judged and
/// corrected from the nodes as they were when the call began.
pub fn correct_angle(squeleton: &mut KinematicChain)
    ensures
        final(squeleton).nodes@ == corrected(old(squeleton).nodes@),
        final(squeleton).anchor == old(squeleton).anchor,
        final(squeleton).target == old(squeleton).target,
        final(squeleton).distance == old(squeleton).distance,
        final(squeleton).skin@ == old(squeleton).skin@,
{
    let count = squeleton.nodes.len();
    let mut points: Vec<Node> = Vec::new();
    let mut i: usize = 0;
    while i < count
        invariant
            i <= count == squeleton.nodes@.len(),
            squeleton.nodes@ == old(squeleton).nodes@,
            points@.len() == i,
            forall|j: int| 0 <= j < i ==> points@[j] == corrected_node(squeleton.nodes@, j),
            squeleton.anchor == old(squeleton).anchor,
            squeleton.target == old(squeleton).target,
            squeleton.distance == old(squeleton).distance,
            squeleton.skin@ == old(squeleton).skin@,
        decreases count - i,
    {
        let node = squeleton.nodes[i];
        if i >= 2 {
            let n0 = squeleton.nodes[i - 2].position;
            let n1 = squeleton.nodes[i - 1].position;
            let position = n0.straighten(&n1, &node.position);
            points.push(Node { position, radius: node.radius });
        } else {
            points.push(node);
        }
        i += 1;
    }
    assert(points@ =~= corrected(squeleton.nodes@));
    squeleton.nodes = points;
}

/// Solves the chain for its target and anchor, in at most `ROUNDS` rounds.
/// Each round puts the head on the target, runs the forward pass and, with
/// an anchor, pins the tail to it and runs the backward pass. If no bend is
/// then beyond the limit, the solve is done; else the bends are corrected
/// and the next round begins. A chain of fewer than two nodes is refused and
/// left as it is.
pub fn solve(squeleton: &mut KinematicChain) -> (outcome: Result<SolveReport, ChainError>)
    ensures
        final(squeleton).anchor == old(squeleton).anchor,
        final(squeleton).target == old(squeleton).target,
        final(squeleton).distance == old(squeleton).distance,
        final(squeleton).skin@ == old(squeleton).skin@,
        !old(squeleton).is_chain() ==> outcome == Err::<SolveReport, ChainError>(
            ChainError::DegenerateChain,
        ) && final(squeleton).nodes@ == old(squeleton).nodes@,
        old(squeleton).is_chain() ==> outcome is Ok,
        outcome matches Ok(report) ==> is_solution(*old(squeleton), final(squeleton).nodes@, report)
            && is_settled(*old(squeleton), final(squeleton).nodes@, report),
{
    let count = squeleton.nodes.len();
    if count < 2 {
        return Err(ChainError::DegenerateChain);
    }
    let ghost start = squeleton.nodes@;
    proof {
        let anchor = squeleton.anchor;
        let target = squeleton.target;
        let len = squeleton.distance as int;
        lemma_solved_keeps(start, target, anchor, len, ROUNDS as nat);
        lemma_solved_bends(start, target, anchor, len, ROUNDS as nat);
        lemma_solved_loose(start, target, anchor, len, ROUNDS as nat);
        match anchor {
            Some(pin) => {
                lemma_solved_tail_near(start, target, pin, len, ROUNDS as nat);
            },
            None => {
                lemma_solved_reaches_target(start, target, len, ROUNDS as nat);
            },
        }
        if solved(start, target, anchor, len, ROUNDS as nat).converged {
            lemma_solved_taut(start, target, anchor, len, ROUNDS as nat);
            match anchor {
                Some(pin) => {
                    lemma_solved_pins_tail(start, target, pin, len, ROUNDS as nat);
                },
                None => {},
            }
        }
    }
    let ghost target = squeleton.target;
    let ghost anchor = squeleton.anchor;
    let ghost len = squeleton.distance as int;
    let mut round: usize = 0;
    let mut converged = false;
    while round < ROUNDS
        invariant_except_break
            !converged,
            round <= ROUNDS,
            ({
                let s = solved(start, target, anchor, len, ROUNDS as nat);
                let rest = solved(squeleton.nodes@, target, anchor, len, (ROUNDS - round) as nat);
                &&& s.nodes == rest.nodes
                &&& s.converged == rest.converged
                &&& s.iterations == round + rest.iterations
            }),
        invariant
            squeleton.nodes@.len() == count,
            count >= 2,
            squeleton.anchor == anchor,
            squeleton.target == target,
            squeleton.distance == len,
            squeleton.anchor == old(squeleton).anchor,
            squeleton.target == old(squeleton).target,
            squeleton.distance == old(squeleton).distance,
            squeleton.skin@ == old(squeleton).skin@,
        ensures
            round <= ROUNDS,
            ({
                let s = solved(start, target, anchor, len, ROUNDS as nat);
                &&& s.nodes == squeleton.nodes@
                &&& s.converged == converged
                &&& s.iterations == round
            }),
        decreases ROUNDS - round,
    {
        let ghost before = squeleton.nodes@;
        let goal = squeleton.target;
        let head = squeleton.nodes[0];
        squeleton.nodes.set(0, Node { position: goal, radius: head.radius });
        forward_kinematics(squeleton);
        match squeleton.anchor {
            Some(pin) => {
                let tail = squeleton.nodes[count - 1];
                squeleton.nodes.set(count - 1, Node { position: pin, radius: tail.radius });
                backward_kinematics(squeleton);
            },
            None => {},
        }
        assert(squeleton.nodes@ == constrained(before, target, anchor, len));
        round += 1;
        if squeleton_angles_are_ok(squeleton) {
            converged = true;
            break ;
        }
        correct_angle(squeleton);
    }
    Ok(SolveReport { iterations: round, converged })
}

/// One frame of a chain: solves it for its target and anchor, then builds
/// its outline, seen from `origin`. A chain of fewer than two nodes is
/// refused and left as it is, outline and all.
pub fn reach_target(squeleton: &mut KinematicChain, origin: &Point) -> (outcome: Result<
    SolveReport,
    ChainError,
>)
    ensures
        final(squeleton).anchor == old(squeleton).anchor,
        final(squeleton).target == old(squeleton).target,
        final(squeleton).distance == old(squeleton).distance,
        !old(squeleton).is_chain() ==> outcome == Err::<SolveReport, ChainError>(
            ChainError::DegenerateChain,
        ),
        !old(squeleton).is_chain() ==> final(squeleton).nodes@ == old(squeleton).nodes@,
        !old(squeleton).is_chain() ==> final(squeleton).skin@ == old(squeleton).skin@,
        old(squeleton).is_chain() ==> outcome is Ok,
        outcome matches Ok(report) ==> {
            &&& is_solution(*old(squeleton), final(squeleton).nodes@, report)
            &&& is_settled(*old(squeleton), final(squeleton).nodes@, report)
            &&& final(squeleton).skin@ == skin_of(final(squeleton).nodes@, *origin)
            &&& final(squeleton).skin@.len() == 2 * old(squeleton).nodes@.len() + 10
        },
{
    match solve(squeleton) {
        Ok(report) => {
            compute_skin(squeleton, origin);
            Ok(report)
        },
        Err(e) => Err(e),
    }
}

} // verus!
