//! What a solve keeps, whatever the chain, the target and the anchor: how
//! far apart neighbours can be, how far the chain can bend, and where its
//! ends lie.

use crate::chain::Node;
use crate::numeric::lemma_square_strict;
use crate::planar::{between, is_axis, pulled, size, times, Point, Vector, BEND_SIN};
use crate::rounding::{
    lemma_pulled, lemma_scaled_axis, lemma_scaled_reaches, lemma_straightened_within,
    lemma_times_unit, lemma_triangle,
};
use crate::solver::{
    angles_ok, backward_from, bend_ok_at, coincide, constrained, corrected, forward, forward_from,
    pair_within, pinned, solved, taut, taut_but,
};
use vstd::prelude::*;

verus! {

/// The squared length of a displacement and of its opposite are the same.
pub proof fn lemma_between_symmetric(a: Point, b: Point)
    ensures
        between(a, b).norm2() == between(b, a).norm2(),
{
    let d = between(a, b);
    let e = between(b, a);
    assert(d.x * d.x == e.x * e.x) by (nonlinear_arith)
        requires
            d.x == -e.x,
    ;
    assert(d.y * d.y == e.y * e.y) by (nonlinear_arith)
        requires
            d.y == -e.y,
    ;
}

/// A forward pass keeps the number of nodes, every radius and every depth,
/// and the nodes up to the one it starts from.
pub proof fn lemma_forward_keeps(nodes: Seq<Node>, len: int, i: int)
    requires
        0 <= len,
    ensures
        forward_from(nodes, len, i).len() == nodes.len(),
        forall|j: int|
            0 <= j < nodes.len() ==> (#[trigger] forward_from(nodes, len, i)[j]).radius
                == nodes[j].radius && forward_from(nodes, len, i)[j].position.z
                == nodes[j].position.z,
        forall|j: int| 0 <= j < nodes.len() && j <= i ==> forward_from(nodes, len, i)[j] == nodes[j],
    decreases nodes.len() - i,
{
    if 0 <= i && i + 1 < nodes.len() {
        let p = pulled(nodes[i].position, nodes[i + 1].position, len);
        lemma_pulled(nodes[i].position, nodes[i + 1].position, len);
        lemma_forward_keeps(pinned(nodes, i + 1, p), len, i + 1);
    }
}

/// After a forward pass from node `i`, no two neighbours are farther apart
/// than the rest length, if none up to node `i` were before.
pub proof fn lemma_forward_from_taut(nodes: Seq<Node>, len: int, i: int)
    requires
        0 <= len,
        0 <= i,
        forall|j: int| 0 <= j < i && j + 1 < nodes.len() ==> pair_within(nodes, len, j),
    ensures
        taut(forward_from(nodes, len, i), len),
    decreases nodes.len() - i,
{
    if i + 1 < nodes.len() {
        let p = pulled(nodes[i].position, nodes[i + 1].position, len);
        lemma_pulled(nodes[i].position, nodes[i + 1].position, len);
        let next = pinned(nodes, i + 1, p);
        assert forall|j: int| 0 <= j < i + 1 && j + 1 < next.len() implies pair_within(
            next,
            len,
            j,
        ) by {
            if j < i {
                assert(pair_within(nodes, len, j));
            }
        }
        lemma_forward_from_taut(next, len, i + 1);
    } else {
        assert forall|j: int| 0 <= j && j + 1 < nodes.len() implies pair_within(nodes, len, j) by {
        }
    }
}

/// After a forward pass no two neighbours are farther apart than the rest
/// length, wherever the nodes were.
pub proof fn lemma_forward_taut(nodes: Seq<Node>, len: int)
    requires
        0 <= len,
    ensures
        taut(forward(nodes, len), len),
        forward(nodes, len).len() == nodes.len(),
        nodes.len() > 0 ==> forward(nodes, len)[0] == nodes[0],
{
    lemma_forward_from_taut(nodes, len, 0);
    lemma_forward_keeps(nodes, len, 0);
}

/// A backward pass keeps the number of nodes, every radius and every depth,
/// and the nodes from the one it starts from on.
pub proof fn lemma_backward_keeps(nodes: Seq<Node>, len: int, i: int)
    requires
        0 <= len,
    ensures
        backward_from(nodes, len, i).len() == nodes.len(),
        forall|j: int|
            0 <= j < nodes.len() ==> (#[trigger] backward_from(nodes, len, i)[j]).radius
                == nodes[j].radius && backward_from(nodes, len, i)[j].position.z
                == nodes[j].position.z,
        forall|j: int|
            0 <= j < nodes.len() && i <= j ==> backward_from(nodes, len, i)[j] == nodes[j],
    decreases i,
{
    if 0 < i < nodes.len() && !coincide(nodes[i].position, nodes[i - 1].position) {
        let p = pulled(nodes[i].position, nodes[i - 1].position, len);
        lemma_pulled(nodes[i].position, nodes[i - 1].position, len);
        lemma_backward_keeps(pinned(nodes, i - 1, p), len, i - 1);
    }
}

/// After a backward pass from node `i`, no two neighbours are farther apart
/// than the rest length, if before it none were but nodes `i - 1` and `i`.
pub proof fn lemma_backward_from_taut(nodes: Seq<Node>, len: int, i: int)
    requires
        0 <= len,
        i < nodes.len(),
        taut_but(nodes, len, i - 1),
    ensures
        taut(backward_from(nodes, len, i), len),
    decreases i,
{
    if 0 < i {
        let fixed = nodes[i].position;
        let free = nodes[i - 1].position;
        if coincide(fixed, free) {
            let d = between(free, fixed);
            assert(d.norm2() == 0) by (nonlinear_arith)
                requires
                    d.x == 0,
                    d.y == 0,
                    d.norm2() == d.x * d.x + d.y * d.y,
            ;
            assert(0 <= len * len) by (nonlinear_arith);
            assert forall|j: int| 0 <= j && j + 1 < nodes.len() implies pair_within(
                nodes,
                len,
                j,
            ) by {
                if j != i - 1 {
                    assert(pair_within(nodes, len, j));
                }
            }
        } else {
            let p = pulled(fixed, free, len);
            lemma_pulled(fixed, free, len);
            lemma_between_symmetric(fixed, p);
            let next = pinned(nodes, i - 1, p);
            assert forall|j: int| 0 <= j && j + 1 < next.len() && j != i - 2 implies pair_within(
                next,
                len,
                j,
            ) by {
                if j != i - 1 {
                    assert(pair_within(nodes, len, j));
                }
            }
            lemma_backward_from_taut(next, len, i - 1);
        }
    } else {
        assert forall|j: int| 0 <= j && j + 1 < nodes.len() implies pair_within(nodes, len, j) by {
            assert(pair_within(nodes, len, j));
        }
    }
}

/// Constraining a chain keeps the number of nodes, every radius, and the
/// depth of every node but the pinned ones; the head is at the target unless
/// the backward pass moved it, and the tail is at the anchor.
pub proof fn lemma_constrained_keeps(
    nodes: Seq<Node>,
    target: Point,
    anchor: Option<Point>,
    len: int,
)
    requires
        0 <= len,
        nodes.len() >= 2,
    ensures
        constrained(nodes, target, anchor, len).len() == nodes.len(),
        forall|j: int|
            0 <= j < nodes.len() ==> (#[trigger] constrained(nodes, target, anchor, len)[j]).radius
                == nodes[j].radius,
        anchor matches Some(a) ==> constrained(nodes, target, anchor, len)[nodes.len() - 1].position
            == a,
        anchor is None ==> constrained(nodes, target, anchor, len)[0].position == target,
{
    let headed = pinned(nodes, 0, target);
    lemma_forward_keeps(headed, len, 0);
    let drawn = forward(headed, len);
    match anchor {
        Some(a) => {
            let tailed = pinned(drawn, drawn.len() - 1, a);
            lemma_backward_keeps(tailed, len, tailed.len() - 1);
        },
        None => {},
    }
}

/// After the chain is constrained, no two neighbours are farther apart than
/// the rest length.
pub proof fn lemma_constrained_taut(
    nodes: Seq<Node>,
    target: Point,
    anchor: Option<Point>,
    len: int,
)
    requires
        0 <= len,
        nodes.len() >= 2,
    ensures
        taut(constrained(nodes, target, anchor, len), len),
{
    let headed = pinned(nodes, 0, target);
    lemma_forward_taut(headed, len);
    let drawn = forward(headed, len);
    match anchor {
        Some(a) => {
            let last = drawn.len() - 1;
            let tailed = pinned(drawn, last, a);
            assert forall|j: int| 0 <= j && j + 1 < tailed.len() && j != last - 1 implies pair_within(
                tailed,
                len,
                j,
            ) by {
                assert(pair_within(drawn, len, j));
            }
            lemma_backward_from_taut(tailed, len, last);
        },
        None => {},
    }
}

/// The correction keeps the number of nodes, every radius and every depth,
/// and the first two nodes.
pub proof fn lemma_corrected_keeps(nodes: Seq<Node>)
    ensures
        corrected(nodes).len() == nodes.len(),
        forall|j: int|
            0 <= j < nodes.len() ==> (#[trigger] corrected(nodes)[j]).radius == nodes[j].radius
                && corrected(nodes)[j].position.z == nodes[j].position.z,
        forall|j: int| 0 <= j < nodes.len() && j < 2 ==> corrected(nodes)[j] == nodes[j],
{
}

/// A sum of three vectors, none longer than `len`, is no longer than three
/// times `len`.
proof fn lemma_three_steps(a: Vector, b: Vector, c: Vector, len: int)
    requires
        0 <= len,
        a.norm2() <= len * len,
        b.norm2() <= len * len,
        c.norm2() <= len * len,
    ensures
        (Vector { x: a.x + b.x + c.x, y: a.y + b.y + c.y }).norm2() <= (3 * len) * (3 * len),
{
    let x = a.x + b.x + c.x;
    let y = a.y + b.y + c.y;
    assert(x * x <= 3 * (a.x * a.x + b.x * b.x + c.x * c.x)) by (nonlinear_arith)
        requires
            x == a.x + b.x + c.x,
    ;
    assert(y * y <= 3 * (a.y * a.y + b.y * b.y + c.y * c.y)) by (nonlinear_arith)
        requires
            y == a.y + b.y + c.y,
    ;
    assert((3 * len) * (3 * len) == 9 * (len * len)) by (nonlinear_arith);
}

/// The correction puts no node farther from where the node before it was
/// than it was, and so leaves no two neighbours of a taut chain farther
/// apart than three rest lengths.
pub proof fn lemma_corrected_loose(nodes: Seq<Node>, len: int)
    requires
        0 <= len,
        taut(nodes, len),
    ensures
        forall|i: int|
            1 <= i < nodes.len() ==> between(
                nodes[i - 1].position,
                (#[trigger] corrected(nodes)[i]).position,
            ).norm2() <= between(nodes[i - 1].position, nodes[i].position).norm2(),
        taut(corrected(nodes), 3 * len),
{
    let fixed = corrected(nodes);
    assert forall|i: int| 1 <= i < nodes.len() implies between(
        nodes[i - 1].position,
        (#[trigger] fixed[i]).position,
    ).norm2() <= between(nodes[i - 1].position, nodes[i].position).norm2() by {
        if i >= 2 {
            lemma_straightened_within(
                nodes[i - 2].position,
                nodes[i - 1].position,
                nodes[i].position,
            );
        }
    }
    let wide = 3 * len;
    assert forall|i: int| 0 <= i && i + 1 < fixed.len() implies pair_within(fixed, wide, i) by {
        assert(pair_within(nodes, len, i));
        let zero = Vector { x: 0, y: 0 };
        assert(zero.norm2() == 0 && 0 <= len * len) by (nonlinear_arith)
            requires
                zero.x == 0,
                zero.y == 0,
                zero.norm2() == zero.x * zero.x + zero.y * zero.y,
        ;
        // from the new node i back to the old node i - 1, on to the old node i,
        // and from there to the new node i + 1
        let back = if i >= 1 {
            between(fixed[i].position, nodes[i - 1].position)
        } else {
            zero
        };
        let along = if i >= 1 {
            between(nodes[i - 1].position, nodes[i].position)
        } else {
            zero
        };
        let on = between(nodes[i].position, fixed[i + 1].position);
        assert(on.norm2() <= len * len) by {
            assert(between(nodes[i].position, fixed[i + 1].position).norm2() <= between(
                nodes[i].position,
                nodes[i + 1].position,
            ).norm2());
        }
        if i >= 1 {
            assert(pair_within(nodes, len, i - 1));
            lemma_between_symmetric(fixed[i].position, nodes[i - 1].position);
        } else {
            assert(fixed[0] == nodes[0]);
        }
        lemma_three_steps(back, along, on, len);
        assert(between(fixed[i].position, fixed[i + 1].position) == Vector {
            x: back.x + along.x + on.x,
            y: back.y + along.y + on.y,
        });
    }
}

/// A taut chain is loose as well: neighbours within a length are within
/// three times that length.
proof fn lemma_taut_is_loose(nodes: Seq<Node>, len: int)
    requires
        0 <= len,
        taut(nodes, len),
    ensures
        taut(nodes, 3 * len),
{
    assert(len * len <= (3 * len) * (3 * len)) by (nonlinear_arith)
        requires
            0 <= len,
    ;
    let wide = 3 * len;
    assert forall|i: int| 0 <= i && i + 1 < nodes.len() implies pair_within(nodes, wide, i) by {
        assert(pair_within(nodes, len, i));
    }
}

/// A solve keeps the number of nodes and every radius, and takes at least
/// one round and at most all of them. If it ends with a bend beyond the
/// limit, it has taken every round.
pub proof fn lemma_solved_keeps(
    nodes: Seq<Node>,
    target: Point,
    anchor: Option<Point>,
    len: int,
    rounds: nat,
)
    requires
        0 <= len,
        nodes.len() >= 2,
    ensures
        solved(nodes, target, anchor, len, rounds).nodes.len() == nodes.len(),
        forall|j: int|
            0 <= j < nodes.len() ==> (#[trigger] solved(
                nodes,
                target,
                anchor,
                len,
                rounds,
            ).nodes[j]).radius == nodes[j].radius,
        solved(nodes, target, anchor, len, rounds).iterations <= rounds,
        rounds > 0 ==> solved(nodes, target, anchor, len, rounds).iterations >= 1,
        !solved(nodes, target, anchor, len, rounds).converged ==> solved(
            nodes,
            target,
            anchor,
            len,
            rounds,
        ).iterations == rounds,
    decreases rounds,
{
    if rounds > 0 {
        let held = constrained(nodes, target, anchor, len);
        lemma_constrained_keeps(nodes, target, anchor, len);
        if !angles_ok(held) {
            lemma_corrected_keeps(held);
            lemma_solved_keeps(corrected(held), target, anchor, len, (rounds - 1) as nat);
        }
    }
}

/// After a solve that converged, no two neighbours are farther apart than
/// the rest length.
pub proof fn lemma_solved_taut(
    nodes: Seq<Node>,
    target: Point,
    anchor: Option<Point>,
    len: int,
    rounds: nat,
)
    requires
        0 <= len,
        nodes.len() >= 2,
        solved(nodes, target, anchor, len, rounds).converged,
    ensures
        taut(solved(nodes, target, anchor, len, rounds).nodes, len),
    decreases rounds,
{
    if rounds > 0 {
        let held = constrained(nodes, target, anchor, len);
        lemma_constrained_keeps(nodes, target, anchor, len);
        if angles_ok(held) {
            lemma_constrained_taut(nodes, target, anchor, len);
        } else {
            lemma_corrected_keeps(held);
            lemma_solved_taut(corrected(held), target, anchor, len, (rounds - 1) as nat);
        }
    }
}

/// After any solve of at least one round, converged or not, no two
/// neighbours are farther apart than three rest lengths.
pub proof fn lemma_solved_loose(
    nodes: Seq<Node>,
    target: Point,
    anchor: Option<Point>,
    len: int,
    rounds: nat,
)
    requires
        0 <= len,
        nodes.len() >= 2,
        rounds > 0,
    ensures
        taut(solved(nodes, target, anchor, len, rounds).nodes, 3 * len),
    decreases rounds,
{
    let held = constrained(nodes, target, anchor, len);
    lemma_constrained_keeps(nodes, target, anchor, len);
    lemma_constrained_taut(nodes, target, anchor, len);
    if angles_ok(held) {
        lemma_taut_is_loose(held, len);
    } else {
        lemma_corrected_keeps(held);
        lemma_corrected_loose(held, len);
        if rounds > 1 {
            lemma_solved_loose(corrected(held), target, anchor, len, (rounds - 1) as nat);
        } else {
            assert(solved(corrected(held), target, anchor, len, 0).nodes == corrected(held));
        }
    }
}

/// After a solve, either the chain bends nowhere by more than the limit, or
/// the solve has taken every round.
pub proof fn lemma_solved_bends(
    nodes: Seq<Node>,
    target: Point,
    anchor: Option<Point>,
    len: int,
    rounds: nat,
)
    ensures
        angles_ok(solved(nodes, target, anchor, len, rounds).nodes) || solved(
            nodes,
            target,
            anchor,
            len,
            rounds,
        ).iterations == rounds,
        solved(nodes, target, anchor, len, rounds).converged ==> angles_ok(
            solved(nodes, target, anchor, len, rounds).nodes,
        ),
    decreases rounds,
{
    if rounds > 0 {
        let held = constrained(nodes, target, anchor, len);
        if !angles_ok(held) {
            lemma_solved_bends(corrected(held), target, anchor, len, (rounds - 1) as nat);
        }
    }
}

/// After a solve that converged, the tail of an anchored chain lies on the
/// anchor, whether the target is within reach of it or not.
pub proof fn lemma_solved_pins_tail(
    nodes: Seq<Node>,
    target: Point,
    pin: Point,
    len: int,
    rounds: nat,
)
    requires
        0 <= len,
        nodes.len() >= 2,
        solved(nodes, target, Some(pin), len, rounds).converged,
    ensures
        solved(nodes, target, Some(pin), len, rounds).nodes.len() == nodes.len(),
        solved(nodes, target, Some(pin), len, rounds).nodes[nodes.len() - 1].position == pin,
    decreases rounds,
{
    if rounds > 0 {
        let anchor = Some(pin);
        let held = constrained(nodes, target, anchor, len);
        lemma_constrained_keeps(nodes, target, anchor, len);
        if !angles_ok(held) {
            lemma_corrected_keeps(held);
            lemma_solved_pins_tail(corrected(held), target, pin, len, (rounds - 1) as nat);
        }
    }
}

/// After any solve of a chain without an anchor, the head lies on the
/// target: no correction moves the head.
pub proof fn lemma_solved_reaches_target(
    nodes: Seq<Node>,
    target: Point,
    len: int,
    rounds: nat,
)
    requires
        0 <= len,
        nodes.len() >= 2,
        rounds > 0,
    ensures
        solved(nodes, target, None, len, rounds).nodes[0].position == target,
    decreases rounds,
{
    let held = constrained(nodes, target, None, len);
    lemma_constrained_keeps(nodes, target, None, len);
    if !angles_ok(held) {
        lemma_corrected_keeps(held);
        let next = corrected(held);
        if rounds > 1 {
            lemma_solved_reaches_target(next, target, len, (rounds - 1) as nat);
        } else {
            assert(solved(next, target, None, len, 0).nodes == next);
        }
    }
}

/// After any solve of a chain with an anchor, the tail lies within two rest
/// lengths of the anchor: the last correction moves it no farther than
/// that. In a chain of two nodes it lies on the anchor.
pub proof fn lemma_solved_tail_near(
    nodes: Seq<Node>,
    target: Point,
    pin: Point,
    len: int,
    rounds: nat,
)
    requires
        0 <= len,
        nodes.len() >= 2,
        rounds > 0,
    ensures
        solved(nodes, target, Some(pin), len, rounds).nodes.len() == nodes.len(),
        between(
            pin,
            solved(nodes, target, Some(pin), len, rounds).nodes[nodes.len() - 1].position,
        ).norm2() <= (2 * len) * (2 * len),
        nodes.len() == 2 ==> solved(nodes, target, Some(pin), len, rounds).nodes[1].position == pin,
    decreases rounds,
{
    let anchor = Some(pin);
    let last = nodes.len() - 1;
    let held = constrained(nodes, target, anchor, len);
    lemma_constrained_keeps(nodes, target, anchor, len);
    lemma_constrained_taut(nodes, target, anchor, len);
    assert(0 <= (2 * len) * (2 * len)) by (nonlinear_arith);
    assert(between(pin, pin).norm2() == 0);
    if !angles_ok(held) {
        lemma_corrected_keeps(held);
        let next = corrected(held);
        if rounds > 1 {
            lemma_solved_tail_near(next, target, pin, len, (rounds - 1) as nat);
        } else {
            assert(solved(next, target, anchor, len, 0).nodes == next);
            if last >= 2 {
                let hinge = held[last - 1].position;
                lemma_straightened_within(held[last - 2].position, hinge, pin);
                assert(pair_within(held, len, last - 1));
                lemma_between_symmetric(pin, hinge);
                let a = between(pin, hinge);
                let b = between(hinge, next[last].position);
                lemma_triangle(a, b, len, len);
                assert(Vector { x: a.x + b.x, y: a.y + b.y } == between(pin, next[last].position));
                assert((len + len) * (len + len) == (2 * len) * (2 * len)) by (nonlinear_arith);
            } else {
                assert(next[last] == held[last]);
            }
        }
    }
}


/// After a forward pass from node `i`, every node after that one lies
/// where the pull after the node before it, as the pass left it, takes it
/// from where it was.
pub proof fn lemma_forward_follows(nodes: Seq<Node>, len: int, i: int)
    requires
        0 <= len,
        0 <= i,
    ensures
        forward_from(nodes, len, i).len() == nodes.len(),
        forall|j: int|
            i <= j && j + 1 < nodes.len() ==> (#[trigger] forward_from(nodes, len, i)[j
                + 1]).position == pulled(
                forward_from(nodes, len, i)[j].position,
                nodes[j + 1].position,
                len,
            ),
    decreases nodes.len() - i,
{
    lemma_forward_keeps(nodes, len, i);
    if i + 1 < nodes.len() {
        let p = pulled(nodes[i].position, nodes[i + 1].position, len);
        let next = pinned(nodes, i + 1, p);
        lemma_forward_follows(next, len, i + 1);
        lemma_forward_keeps(next, len, i + 1);
        let done = forward_from(nodes, len, i);
        assert(done == forward_from(next, len, i + 1));
        assert forall|j: int| i <= j && j + 1 < nodes.len() implies (#[trigger] done[j
            + 1]).position == pulled(done[j].position, nodes[j + 1].position, len) by {
            if j == i {
                assert(done[i + 1] == next[i + 1]);
                assert(done[i] == next[i]);
            } else {
                assert(next[j + 1] == nodes[j + 1]);
            }
        }
    }
}

/// A chain without an anchor follows its head. If its bends pass once the
/// head is on the target and every other node has been pulled after the one
/// before it, the solve ends there, in its first round: the head lies on the
/// target, and every other node where that pull takes it from where it was.
pub proof fn lemma_solved_follows(nodes: Seq<Node>, target: Point, len: int, rounds: nat)
    requires
        0 <= len,
        nodes.len() >= 2,
        rounds > 0,
        angles_ok(forward(pinned(nodes, 0, target), len)),
    ensures
        solved(nodes, target, None, len, rounds).converged,
        solved(nodes, target, None, len, rounds).iterations == 1,
        solved(nodes, target, None, len, rounds).nodes.len() == nodes.len(),
        solved(nodes, target, None, len, rounds).nodes[0].position == target,
        forall|j: int|
            0 <= j && j + 1 < nodes.len() ==> (#[trigger] solved(
                nodes,
                target,
                None,
                len,
                rounds,
            ).nodes[j + 1]).position == pulled(
                solved(nodes, target, None, len, rounds).nodes[j].position,
                nodes[j + 1].position,
                len,
            ),
{
    let headed = pinned(nodes, 0, target);
    lemma_forward_follows(headed, len, 0);
    lemma_forward_keeps(headed, len, 0);
    let held = forward(headed, len);
    assert(solved(nodes, target, None, len, rounds).nodes == held);
    assert forall|j: int| 0 <= j && j + 1 < nodes.len() implies (#[trigger] held[j + 1]).position
        == pulled(held[j].position, nodes[j + 1].position, len) by {
        assert(headed[j + 1] == nodes[j + 1]);
    }
}

/// In a chain whose neighbours are no farther apart than `len`, node `j`
/// is no farther from node `i` than `len` for each node between them.
pub proof fn lemma_taut_span(nodes: Seq<Node>, len: int, i: int, j: int)
    requires
        0 <= len,
        taut(nodes, len),
        0 <= i <= j < nodes.len(),
    ensures
        between(nodes[i].position, nodes[j].position).norm2() <= (len * (j - i)) * (len * (j - i)),
    decreases j - i,
{
    if i == j {
        assert((len * 0) * (len * 0) == 0) by (nonlinear_arith);
    } else {
        lemma_taut_span(nodes, len, i, j - 1);
        assert(pair_within(nodes, len, j - 1));
        let far = len * (j - 1 - i);
        assert(0 <= far && far + len == len * (j - i)) by (nonlinear_arith)
            requires
                far == len * (j - 1 - i),
                0 <= len,
                0 <= j - 1 - i,
        ;
        lemma_triangle(
            between(nodes[i].position, nodes[j - 1].position),
            between(nodes[j - 1].position, nodes[j].position),
            far,
            len,
        );
    }
}

/// Whether nodes `i` and `i + 1` are as far apart as the grid lets two
/// points within `len` of each other be along their line: no farther than
/// `len`, and less than a step of the grid short of it in each coordinate.
pub open spec fn pair_stretched(nodes: Seq<Node>, len: int, i: int) -> bool {
    let s = between(nodes[i].position, nodes[i + 1].position);
    &&& s.norm2() <= len * len
    &&& (size(s.x) + 1) * (size(s.x) + 1) + (size(s.y) + 1) * (size(s.y) + 1) > len * len
}

/// A chain without an anchor whose target lies beyond its reach is drawn
/// out to its full length. If no two neighbours were farther apart than the
/// rest length, and the target is farther from the tail than all the rest
/// lengths together, then once the chain is constrained its head lies on the
/// target and no segment has any slack. If its bends pass, that is how the
/// solve leaves it.
pub proof fn lemma_far_target_stretches(nodes: Seq<Node>, target: Point, len: int, rounds: nat)
    requires
        0 <= len,
        nodes.len() >= 2,
        rounds > 0,
        taut(nodes, len),
        between(target, nodes[nodes.len() - 1].position).norm2() > (len * (nodes.len() - 1)) * (len
            * (nodes.len() - 1)),
    ensures
        constrained(nodes, target, None, len).len() == nodes.len(),
        constrained(nodes, target, None, len)[0].position == target,
        forall|i: int|
            0 <= i && i + 1 < nodes.len() ==> pair_stretched(
                constrained(nodes, target, None, len),
                len,
                i,
            ),
        angles_ok(constrained(nodes, target, None, len)) ==> solved(
            nodes,
            target,
            None,
            len,
            rounds,
        ).nodes == constrained(nodes, target, None, len),
{
    let count = nodes.len() as int;
    let tail = nodes[count - 1].position;
    let headed = pinned(nodes, 0, target);
    let held = forward(headed, len);
    lemma_forward_taut(headed, len);
    lemma_forward_follows(headed, len, 0);
    assert forall|i: int| 0 <= i && i + 1 < count implies pair_stretched(held, len, i) by {
        let from = held[i].position;
        let was = nodes[i + 1].position;
        assert(headed[i + 1] == nodes[i + 1]);
        assert(held[i + 1].position == pulled(from, was, len));
        let a = between(target, from);
        let b = between(from, was);
        let c = between(was, tail);
        lemma_taut_span(held, len, 0, i);
        lemma_taut_span(nodes, len, i + 1, count - 1);
        let near = len * i;
        let over = len * (count - 2 - i);
        assert(0 <= near && 0 <= over && near + len + over == len * (count - 1)) by (nonlinear_arith)
            requires
                near == len * i,
                over == len * (count - 2 - i),
                0 <= len,
                0 <= i,
                0 <= count - 2 - i,
        ;
        assert(near == len * (i - 0));
        assert(over == len * (count - 1 - (i + 1)));
        if b.norm2() <= len * len {
            lemma_triangle(a, b, near, len);
            lemma_triangle(Vector { x: a.x + b.x, y: a.y + b.y }, c, near + len, over);
            assert(Vector { x: a.x + b.x + c.x, y: a.y + b.y + c.y } == between(target, tail));
            assert(false);
        }
        lemma_pulled(from, was, len);
        assert(len * len >= 0) by (nonlinear_arith);
        lemma_scaled_reaches(b, len);
    }
}

/// Whether `p` lies on the line through `target` along `u`.
pub open spec fn on_line(target: Point, u: Vector, p: Point) -> bool {
    between(target, p) == times(u, u.dot(between(target, p)))
}

/// Whether every node after the head lies on the ray from `target` along
/// `u`, farther out than its place in a chain stretched from `target`.
pub open spec fn strung_out(nodes: Seq<Node>, target: Point, u: Vector, len: int) -> bool {
    forall|i: int|
        1 <= i < nodes.len() ==> on_line(target, u, (#[trigger] nodes[i]).position) && u.dot(
            between(target, nodes[i].position),
        ) > len * i
}

/// Whether the chain is a straight line from `target` along `u`, with
/// neighbours exactly `len` apart.
pub open spec fn stretched(nodes: Seq<Node>, target: Point, u: Vector, len: int) -> bool {
    forall|i: int|
        0 <= i < nodes.len() ==> between(target, (#[trigger] nodes[i]).position) == times(
            u,
            len * i,
        )
}

proof fn lemma_forward_stretches(nodes: Seq<Node>, target: Point, u: Vector, len: int, i: int)
    requires
        is_axis(u),
        0 <= len,
        0 <= i < nodes.len(),
        forall|j: int|
            0 <= j <= i ==> between(target, (#[trigger] nodes[j]).position) == times(u, len * j),
        forall|j: int|
            i < j < nodes.len() ==> on_line(target, u, (#[trigger] nodes[j]).position) && u.dot(
                between(target, nodes[j].position),
            ) > len * j,
    ensures
        stretched(forward_from(nodes, len, i), target, u, len),
        forward_from(nodes, len, i).len() == nodes.len(),
    decreases nodes.len() - i,
{
    if i + 1 < nodes.len() {
        let fixed = nodes[i].position;
        let free = nodes[i + 1].position;
        let a = u.dot(between(target, free));
        let t = a - len * i;
        assert(len * (i + 1) == len * i + len) by (nonlinear_arith);
        assert(between(target, fixed) == times(u, len * i));
        assert(between(target, free) == times(u, a));
        lemma_times_unit(u.x, a);
        lemma_times_unit(u.y, a);
        lemma_times_unit(u.x, len * i);
        lemma_times_unit(u.y, len * i);
        lemma_times_unit(u.x, t);
        lemma_times_unit(u.y, t);
        lemma_times_unit(u.x, len);
        lemma_times_unit(u.y, len);
        lemma_times_unit(u.x, len * (i + 1));
        lemma_times_unit(u.y, len * (i + 1));
        let d = between(fixed, free);
        assert(d == times(u, t));
        lemma_scaled_axis(u, t, len);
        lemma_square_strict(len, t);
        lemma_pulled(fixed, free, len);
        let p = pulled(fixed, free, len);
        assert(between(fixed, p) == times(u, len));
        assert(between(target, p) == times(u, len * (i + 1)));
        let next = pinned(nodes, i + 1, p);
        assert forall|j: int| 0 <= j <= i + 1 implies between(
            target,
            (#[trigger] next[j]).position,
        ) == times(u, len * j) by {
            if j <= i {
                assert(next[j] == nodes[j]);
            }
        }
        assert forall|j: int| i + 1 < j < next.len() implies on_line(
            target,
            u,
            (#[trigger] next[j]).position,
        ) && u.dot(between(target, next[j].position)) > len * j by {
            assert(next[j] == nodes[j]);
        }
        lemma_forward_stretches(next, target, u, len, i + 1);
    } else {
        assert forall|j: int| 0 <= j < nodes.len() implies between(
            target,
            (#[trigger] nodes[j]).position,
        ) == times(u, len * j) by {}
    }
}

/// A chain stretched straight along a grid axis bends nowhere.
proof fn lemma_stretched_is_straight(nodes: Seq<Node>, target: Point, u: Vector, len: int)
    requires
        is_axis(u),
        0 <= len,
        stretched(nodes, target, u, len),
    ensures
        angles_ok(nodes),
{
    assert forall|i: int| 0 <= i && i + 2 < nodes.len() implies bend_ok_at(nodes, i) by {
        let n0 = nodes[i].position;
        let n1 = nodes[i + 1].position;
        let n2 = nodes[i + 2].position;
        assert(len * (i + 1) == len * i + len && len * (i + 2) == len * i + len + len)
            by (nonlinear_arith);
        lemma_times_unit(u.x, len * i);
        lemma_times_unit(u.y, len * i);
        lemma_times_unit(u.x, len * (i + 1));
        lemma_times_unit(u.y, len * (i + 1));
        lemma_times_unit(u.x, len * (i + 2));
        lemma_times_unit(u.y, len * (i + 2));
        lemma_times_unit(u.x, len);
        lemma_times_unit(u.y, len);
        assert(between(target, n0) == times(u, len * i));
        assert(between(target, n1) == times(u, len * (i + 1)));
        assert(between(target, n2) == times(u, len * (i + 2)));
        let a = between(n0, n1);
        let b = between(n1, n2);
        assert(a == times(u, len));
        assert(b == times(u, len));
        assert(a.cross(b) == 0 && a.dot(b) >= 0) by (nonlinear_arith)
            requires
                a == b,
                a.cross(b) == a.x * b.y - a.y * b.x,
                a.dot(b) == a.x * b.x + a.y * b.y,
        ;
        assert(BEND_SIN * a.dot(b) >= 0) by (nonlinear_arith)
            requires
                a.dot(b) >= 0,
                BEND_SIN > 0,
        ;
    }
}

/// A chain without an anchor whose nodes lie strung out along a grid axis,
/// each beyond its place in the stretched chain, is solved in one round,
/// into a straight line from the target with neighbours exactly the rest
/// length apart.
pub proof fn lemma_full_extension(
    nodes: Seq<Node>,
    target: Point,
    u: Vector,
    len: int,
    rounds: nat,
)
    requires
        is_axis(u),
        0 <= len,
        nodes.len() >= 2,
        rounds > 0,
        strung_out(nodes, target, u, len),
    ensures
        solved(nodes, target, None, len, rounds).converged,
        solved(nodes, target, None, len, rounds).iterations == 1,
        solved(nodes, target, None, len, rounds).nodes.len() == nodes.len(),
        stretched(solved(nodes, target, None, len, rounds).nodes, target, u, len),
{
    let headed = pinned(nodes, 0, target);
    lemma_times_unit(u.x, 0);
    lemma_times_unit(u.y, 0);
    assert(len * 0 == 0) by (nonlinear_arith);
    assert forall|j: int| 0 <= j <= 0 implies between(target, (#[trigger] headed[j]).position)
        == times(u, len * j) by {}
    assert forall|j: int| 0 < j < headed.len() implies on_line(
        target,
        u,
        (#[trigger] headed[j]).position,
    ) && u.dot(between(target, headed[j].position)) > len * j by {
        assert(headed[j] == nodes[j]);
    }
    lemma_forward_stretches(headed, target, u, len, 0);
    lemma_stretched_is_straight(forward(headed, len), target, u, len);
}

} // verus!
