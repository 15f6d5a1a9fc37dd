use kinematic_chain::chain::{ChainError, KinematicChain, Node};
use kinematic_chain::planar::Point;

fn p(x: i32, y: i32, z: i32) -> Point {
    Point { x, y, z }
}

#[test]
fn new_refuses_fewer_than_two_nodes() {
    assert_eq!(KinematicChain::new(0, 10, None).err(), Some(ChainError::DegenerateChain));
    assert_eq!(KinematicChain::new(1, 10, None).err(), Some(ChainError::DegenerateChain));
    assert_eq!(KinematicChain::fish_like(0, 10, None).err(), Some(ChainError::DegenerateChain));
    assert_eq!(KinematicChain::fish_like(1, 10, None).err(), Some(ChainError::DegenerateChain));
    assert_eq!(KinematicChain::new(1, u32::MAX, None).err(), Some(ChainError::DegenerateChain));
}

#[test]
fn new_refuses_a_layout_off_the_grid() {
    assert_eq!(KinematicChain::new(3, 0x4000_0000, None).err(), Some(ChainError::OffGrid));
    assert_eq!(KinematicChain::fish_like(2, 0x4000_0000, None).err(), Some(ChainError::OffGrid));
    assert_eq!(KinematicChain::new(usize::MAX, 1, None).err(), Some(ChainError::OffGrid));
    assert_eq!(KinematicChain::new(2, 0x8000_0000, None).err(), Some(ChainError::OffGrid));
    assert!(KinematicChain::new(2, 0x3fff_ffff, None).is_ok());
    assert!(KinematicChain::fish_like(2, 0x3fff_ffff, None).is_ok());
}

#[test]
fn new_needs_room_for_its_nodes_only() {
    let chain = KinematicChain::new(2, 0x4000_0000, None).unwrap();
    assert_eq!(chain.nodes[1].position, p(0, 0x4000_0000, 0));
    assert_eq!(chain.target, p(0, 0, 0));
    let chain = KinematicChain::new(2, 0x7fff_ffff, None).unwrap();
    assert_eq!(chain.nodes[1].position, p(0, i32::MAX, 0));
}

#[test]
fn new_lays_the_nodes_out_along_the_axis() {
    let chain = KinematicChain::new(3, 20, Some(p(1, 2, 3))).unwrap();
    assert_eq!(
        chain.nodes,
        vec![
            Node { position: p(0, 0, 0), radius: 20 },
            Node { position: p(0, 20, 0), radius: 20 },
            Node { position: p(0, 40, 0), radius: 20 },
        ]
    );
    assert_eq!(chain.target, p(0, 0, 0));
    assert_eq!(chain.anchor, Some(p(1, 2, 3)));
    assert_eq!(chain.distance, 20);
    assert!(chain.skin.is_empty());
}

#[test]
fn new_with_no_spacing_stacks_the_nodes() {
    let chain = KinematicChain::new(4, 0, None).unwrap();
    assert_eq!(chain.nodes.len(), 4);
    for node in &chain.nodes {
        assert_eq!(*node, Node { position: p(0, 0, 0), radius: 0 });
    }
    assert_eq!(chain.anchor, None);
}

#[test]
fn fish_like_widens_over_the_head_and_narrows_to_the_tail() {
    let chain = KinematicChain::fish_like(12, 16, None).unwrap();
    let radii: Vec<u32> = chain.nodes.iter().map(|n| n.radius).collect();
    assert_eq!(radii, vec![20, 22, 20, 18, 16, 14, 12, 10, 8, 6, 4, 2]);
    for (i, node) in chain.nodes.iter().enumerate() {
        assert_eq!(node.position, p(0, 16 * i as i32, 0));
    }
    assert_eq!(chain.target, p(0, 192, 0));
    assert_eq!(chain.anchor, None);
    assert_eq!(chain.distance, 16);
    assert!(chain.skin.is_empty());
}

#[test]
fn fish_like_without_a_head_bulge() {
    let chain = KinematicChain::fish_like(5, 12, Some(p(0, 0, 1))).unwrap();
    let radii: Vec<u32> = chain.nodes.iter().map(|n| n.radius).collect();
    assert_eq!(radii, vec![7, 6, 4, 3, 1]);
    assert_eq!(chain.target, p(0, 60, 0));
    assert_eq!(chain.anchor, Some(p(0, 0, 1)));
}

#[test]
fn fish_like_of_twenty_nodes() {
    let chain = KinematicChain::fish_like(20, 12, None).unwrap();
    let radii: Vec<u32> = chain.nodes.iter().map(|n| n.radius).collect();
    assert_eq!(
        radii,
        vec![25, 27, 28, 25, 24, 22, 21, 19, 18, 16, 15, 13, 12, 10, 9, 7, 6, 4, 3, 1]
    );
}

#[test]
fn fish_like_radii_rise_over_the_head_and_fall_to_the_tail() {
    for count in 2..60usize {
        let chain = KinematicChain::fish_like(count, 1000, None).unwrap();
        let nose = count / 6;
        for i in 1..count {
            let (before, here) = (chain.nodes[i - 1].radius, chain.nodes[i].radius);
            if i < nose {
                assert!(before <= here);
            }
            if i > nose {
                assert!(before >= here);
            }
        }
        assert_eq!(chain.nodes[count - 1].radius, 125);
    }
}
