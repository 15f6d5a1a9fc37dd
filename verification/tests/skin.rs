use kinematic_chain::chain::{KinematicChain, Node};
use kinematic_chain::planar::{Planar, Point};
use kinematic_chain::skin::{compute_skin, trace, FAN};

fn p(x: i32, y: i32, z: i32) -> Point {
    Point { x, y, z }
}

fn chain(nodes: &[(i32, i32, u32)]) -> KinematicChain {
    KinematicChain {
        anchor: None,
        target: p(0, 0, 0),
        nodes: nodes
            .iter()
            .map(|&(x, y, radius)| Node { position: p(x, y, 0), radius })
            .collect(),
        distance: 2000,
        skin: vec![Planar { x: 9, y: 9 }],
    }
}

fn points(skin: &[Planar]) -> Vec<(i64, i64)> {
    skin.iter().map(|q| (q.x, q.y)).collect()
}

#[test]
fn skin_of_a_straight_chain() {
    let mut c = chain(&[(0, 0, 1000), (2000, 0, 800), (4000, 0, 600)]);
    compute_skin(&mut c, &p(0, 0, 0));
    assert_eq!(
        points(&c.skin),
        vec![
            (-965, 258),
            (-866, 500),
            (-707, 707),
            (-500, 866),
            (0, 1000),
            (2000, 800),
            (4000, 600),
            (4600, 0),
            (4000, -600),
            (2000, -800),
            (0, -1000),
            (-500, -866),
            (-707, -707),
            (-866, -500),
            (-965, -258),
            (-1000, 0),
        ]
    );
    assert_ne!(c.skin.first(), c.skin.last());
}

#[test]
fn skin_of_a_slanted_chain_of_two_nodes() {
    let mut c = chain(&[(0, 0, 1000), (3000, 4000, 500)]);
    compute_skin(&mut c, &p(0, 0, 0));
    assert_eq!(
        points(&c.skin),
        vec![
            (-786, -617),
            (-919, -392),
            (-989, -141),
            (-992, 119),
            (-800, 600),
            (2600, 4300),
            (3300, 4400),
            (3400, 3700),
            (800, -600),
            (392, -919),
            (141, -989),
            (-119, -992),
            (-372, -928),
            (-600, -800),
        ]
    );
}

#[test]
fn skin_is_seen_from_the_origin_of_the_body() {
    let mut at_home = chain(&[(0, 0, 1000), (2000, 0, 800), (4000, 0, 600)]);
    let mut away = chain(&[(0, 0, 1000), (2000, 0, 800), (4000, 0, 600)]);
    compute_skin(&mut at_home, &p(0, 0, 0));
    compute_skin(&mut away, &p(100, -50, 7));
    assert_eq!(away.skin.len(), at_home.skin.len());
    for (far, near) in away.skin.iter().zip(at_home.skin.iter()) {
        assert_eq!((far.x, far.y), (near.x - 100, near.y + 50));
    }
    assert_eq!(points(&away.skin)[0], (-1065, 308));
}

#[test]
fn skin_has_two_points_a_node_and_ten_more() {
    for count in 2..40usize {
        let mut c = KinematicChain::fish_like(count, 1000, None).unwrap();
        compute_skin(&mut c, &p(3, 4, 5));
        assert_eq!(c.skin.len(), 2 * count + 10);
    }
}

#[test]
fn skin_of_a_degenerate_chain_is_empty() {
    let mut one = chain(&[(5, 5, 100)]);
    compute_skin(&mut one, &p(0, 0, 0));
    assert!(one.skin.is_empty());
    let mut none = chain(&[]);
    compute_skin(&mut none, &p(0, 0, 0));
    assert!(none.skin.is_empty());
}

#[test]
fn skin_of_coincident_nodes_collapses_on_them() {
    let mut c = chain(&[(7, 8, 100), (7, 8, 100)]);
    compute_skin(&mut c, &p(1, 1, 0));
    assert_eq!(c.skin.len(), 14);
    for q in &c.skin {
        assert_eq!((q.x, q.y), (6, 7));
    }
}

#[test]
fn skin_at_the_corners_of_the_grid() {
    let mut c = chain(&[(i32::MIN, i32::MIN, u32::MAX), (i32::MAX, i32::MAX, u32::MAX)]);
    compute_skin(&mut c, &p(i32::MAX, i32::MAX, 0));
    assert_eq!(c.skin.len(), 14);
    let left = c.skin[FAN];
    assert_eq!((left.x, left.y), (-0xffff_ffff - 3_037_000_499, -0xffff_ffff + 3_037_000_499));
}

#[test]
fn compute_skin_leaves_the_chain_as_it_is() {
    let mut c = chain(&[(0, 0, 1000), (2000, 0, 800), (4000, 0, 600)]);
    c.anchor = Some(p(1, 2, 3));
    c.target = p(4, 5, 6);
    let nodes = c.nodes.clone();
    compute_skin(&mut c, &p(0, 0, 0));
    assert_eq!(c.nodes, nodes);
    assert_eq!(c.anchor, Some(p(1, 2, 3)));
    assert_eq!(c.target, p(4, 5, 6));
    assert_eq!(c.distance, 2000);
}

#[test]
fn trace_gathers_both_edges_and_the_boundary() {
    let c = chain(&[(0, 0, 1000), (2000, 0, 800), (4000, 0, 600)]);
    let outline = trace(&c.nodes, &p(0, 0, 0));
    assert_eq!(
        points(&outline.left),
        vec![(-965, 258), (-866, 500), (-707, 707), (-500, 866), (0, 1000), (2000, 800), (4000, 600)]
    );
    assert_eq!(
        points(&outline.right),
        vec![
            (-965, -258),
            (-866, -500),
            (-707, -707),
            (-500, -866),
            (0, -1000),
            (2000, -800),
            (4000, -600)
        ]
    );
    assert_eq!(
        points(&outline.boundary),
        vec![(-1000, 0), (0, 1000), (1200, 0), (2000, 800), (4600, 0)]
    );
}

#[test]
fn closing_point_of_a_segment_is_its_left_point() {
    let c = KinematicChain::fish_like(9, 700, None).unwrap();
    let outline = trace(&c.nodes, &p(40, 40, 0));
    assert_eq!(outline.boundary.len(), 2 * 8 + 1);
    for i in 0..8 {
        assert_eq!(outline.boundary[2 * i + 1], outline.left[FAN + i]);
    }
}

#[test]
fn trace_of_a_degenerate_chain_is_empty() {
    let c = chain(&[(5, 5, 100)]);
    let outline = trace(&c.nodes, &p(0, 0, 0));
    assert!(outline.left.is_empty() && outline.right.is_empty() && outline.boundary.is_empty());
}
