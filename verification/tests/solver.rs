use kinematic_chain::chain::{ChainError, KinematicChain, Node};
use kinematic_chain::planar::{Planar, Point};
use kinematic_chain::solver::{
    backward_kinematics, correct_angle, forward_kinematics, reach_target, solve,
    squeleton_angles_are_ok, SolveReport, ROUNDS,
};

fn p(x: i32, y: i32, z: i32) -> Point {
    Point { x, y, z }
}

fn chain(points: &[(i32, i32, i32)], distance: u32) -> KinematicChain {
    KinematicChain {
        anchor: None,
        target: p(0, 0, 0),
        nodes: points.iter().map(|&(x, y, z)| Node { position: p(x, y, z), radius: 1 }).collect(),
        distance,
        skin: Vec::new(),
    }
}

fn positions(chain: &KinematicChain) -> Vec<(i32, i32, i32)> {
    chain.nodes.iter().map(|n| (n.position.x, n.position.y, n.position.z)).collect()
}

fn is_taut(chain: &KinematicChain) -> bool {
    let limit = (chain.distance as u128) * (chain.distance as u128);
    chain
        .nodes
        .windows(2)
        .all(|w| Planar::span(&w[0].position, &w[1].position).norm2() <= limit)
}

fn is_loose(chain: &KinematicChain) -> bool {
    let limit = 9 * (chain.distance as u128) * (chain.distance as u128);
    chain
        .nodes
        .windows(2)
        .all(|w| Planar::span(&w[0].position, &w[1].position).norm2() <= limit)
}

fn bends_within_limit(chain: &KinematicChain) -> bool {
    chain.nodes.windows(3).all(|w| w[0].position.bend_ok(&w[1].position, &w[2].position))
}

#[test]
fn forward_kinematics_pulls_each_node_after_the_one_before() {
    let mut c = chain(&[(0, 0, 0), (30, 40, 0), (30, 140, 9), (31, 140, 0)], 10);
    forward_kinematics(&mut c);
    assert_eq!(positions(&c), vec![(0, 0, 0), (6, 8, 0), (7, 17, 9), (8, 26, 0)]);
    assert!(is_taut(&c));
}

#[test]
fn forward_kinematics_leaves_slack_nodes_alone() {
    let mut c = chain(&[(0, 0, 0), (3, 4, 1), (3, 4, 2), (9, 12, 3)], 10);
    let before = positions(&c);
    forward_kinematics(&mut c);
    assert_eq!(positions(&c), before);
}

#[test]
fn forward_kinematics_of_short_chains() {
    let mut none = chain(&[], 10);
    forward_kinematics(&mut none);
    assert!(none.nodes.is_empty());
    let mut one = chain(&[(4, 5, 6)], 10);
    forward_kinematics(&mut one);
    assert_eq!(positions(&one), vec![(4, 5, 6)]);
}

#[test]
fn backward_kinematics_pulls_each_node_after_the_one_behind() {
    let mut c = chain(&[(0, 0, 0), (30, 40, 0), (30, 140, 9), (60, 180, 0)], 10);
    backward_kinematics(&mut c);
    assert_eq!(positions(&c), vec![(50, 154, 0), (53, 163, 0), (54, 172, 9), (60, 180, 0)]);
    assert!(is_taut(&c));
}

#[test]
fn backward_kinematics_stops_at_coincident_nodes() {
    let mut c = chain(&[(0, 0, 0), (30, 40, 0), (30, 140, 9), (30, 140, 0)], 10);
    let before = positions(&c);
    backward_kinematics(&mut c);
    assert_eq!(positions(&c), before);
}

#[test]
fn backward_kinematics_of_short_chains() {
    let mut none = chain(&[], 10);
    backward_kinematics(&mut none);
    assert!(none.nodes.is_empty());
    let mut one = chain(&[(4, 5, 6)], 10);
    backward_kinematics(&mut one);
    assert_eq!(positions(&one), vec![(4, 5, 6)]);
}

#[test]
fn angles_are_ok_on_straight_and_short_chains() {
    assert!(squeleton_angles_are_ok(&chain(&[], 10)));
    assert!(squeleton_angles_are_ok(&chain(&[(0, 0, 0), (100, 900, 0)], 10)));
    assert!(squeleton_angles_are_ok(&chain(&[(0, 0, 0), (10, 0, 0), (20, 0, 0), (30, 1, 0)], 10)));
    assert!(squeleton_angles_are_ok(&chain(&[(0, 0, 0), (0, 0, 0), (0, 0, 0)], 10)));
}

#[test]
fn angles_are_not_ok_with_one_sharp_bend() {
    assert!(!squeleton_angles_are_ok(&chain(
        &[(0, 0, 0), (10, 0, 0), (20, 0, 0), (30, 0, 0), (30, 10, 0)],
        10
    )));
    assert!(!squeleton_angles_are_ok(&chain(&[(0, 0, 0), (10, 0, 0), (0, 0, 0)], 10)));
}

#[test]
fn correct_angle_judges_every_bend_by_the_nodes_as_they_were() {
    let mut c = chain(&[(0, 0, 0), (1000, 0, 0), (1000, 1000, 0), (0, 1000, 0)], 1000);
    correct_angle(&mut c);
    assert_eq!(
        positions(&c),
        vec![(0, 0, 0), (1000, 0, 0), (1939, 342, 0), (658, 1939, 0)]
    );
}

#[test]
fn correct_angle_keeps_radius_depth_and_the_first_two_nodes() {
    let mut c = chain(&[(0, 0, 4), (1000, 0, 5), (1000, 1000, 6)], 1000);
    c.nodes[2].radius = 77;
    c.anchor = Some(p(1, 1, 1));
    c.target = p(2, 2, 2);
    correct_angle(&mut c);
    assert_eq!(positions(&c), vec![(0, 0, 4), (1000, 0, 5), (1939, 342, 6)]);
    assert_eq!(c.nodes[2].radius, 77);
    assert_eq!(c.anchor, Some(p(1, 1, 1)));
    assert_eq!(c.target, p(2, 2, 2));
}

#[test]
fn correct_angle_leaves_gentle_bends_and_short_chains() {
    let mut c = chain(&[(0, 0, 0), (10, 0, 0), (20, 1, 0), (30, 3, 0)], 10);
    let before = positions(&c);
    correct_angle(&mut c);
    assert_eq!(positions(&c), before);
    let mut two = chain(&[(0, 0, 0), (0, 50, 0)], 10);
    correct_angle(&mut two);
    assert_eq!(positions(&two), vec![(0, 0, 0), (0, 50, 0)]);
}

#[test]
fn solve_refuses_a_degenerate_chain_and_leaves_it_alone() {
    let mut one = chain(&[(4, 5, 6)], 10);
    one.target = p(100, 100, 0);
    one.anchor = Some(p(-100, 0, 0));
    one.skin = vec![Planar { x: 1, y: 2 }];
    assert_eq!(solve(&mut one), Err(ChainError::DegenerateChain));
    assert_eq!(reach_target(&mut one, &p(0, 0, 0)), Err(ChainError::DegenerateChain));
    assert_eq!(positions(&one), vec![(4, 5, 6)]);
    assert_eq!(one.skin, vec![Planar { x: 1, y: 2 }]);
    let mut none = chain(&[], 10);
    assert_eq!(reach_target(&mut none, &p(0, 0, 0)), Err(ChainError::DegenerateChain));
    assert!(none.nodes.is_empty());
}

#[test]
fn three_nodes_at_the_origin_follow_a_far_target() {
    let mut c = chain(&[(0, 0, 0), (0, 0, 0), (0, 0, 0)], 10);
    c.target = p(100, 0, 0);
    let report = reach_target(&mut c, &p(0, 0, 0)).unwrap();
    assert_eq!(report, SolveReport { iterations: 1, converged: true });
    assert_eq!(positions(&c), vec![(100, 0, 0), (90, 0, 0), (80, 0, 0)]);
    assert_eq!(c.skin.len(), 16);
}

#[test]
fn three_nodes_on_the_axis_follow_a_far_target() {
    let mut c = KinematicChain::new(3, 10_000, None).unwrap();
    c.target = p(100_000, 0, 0);
    let before = positions(&c);
    let report = reach_target(&mut c, &p(0, 0, 0)).unwrap();
    assert_eq!(report, SolveReport { iterations: 1, converged: true });
    assert_eq!(positions(&c), vec![(100_000, 0, 0), (90_050, 995, 0), (80_266, 3060, 0)]);
    for i in 1..3 {
        let step = Planar::span(&c.nodes[i - 1].position, &c.nodes[i].position);
        let length = (step.norm2() as f64).sqrt();
        assert!(length <= 10_000.0 && length > 10_000.0 - 1.5, "length {}", length);
        let prior = p(before[i].0, before[i].1, 0);
        let toward = Planar::span(&c.nodes[i - 1].position, &prior);
        let off_line = (step.cross(&toward) as f64).abs() / (toward.norm2() as f64).sqrt();
        assert!(off_line < 1.5, "off the line by {}", off_line);
        assert!(step.dot(&toward) > 0);
    }
}

#[test]
fn anchored_chain_out_of_reach_keeps_its_tail_on_the_anchor() {
    let mut c = KinematicChain::new(3, 10, Some(p(0, -10, 0))).unwrap();
    c.target = p(0, 100, 0);
    let report = reach_target(&mut c, &p(0, 0, 0)).unwrap();
    assert_eq!(report, SolveReport { iterations: 1, converged: true });
    assert_eq!(positions(&c), vec![(0, 10, 0), (0, 0, 0), (0, -10, 0)]);
    assert_eq!(c.nodes[2].position, p(0, -10, 0));
    assert_ne!(c.nodes[0].position, c.target);
}

#[test]
fn anchored_chain_within_reach_is_pinned_at_both_ends_of_the_rope() {
    let mut c = KinematicChain::new(4, 1000, Some(p(0, 2500, 5))).unwrap();
    c.target = p(0, -100, 0);
    let report = solve(&mut c).unwrap();
    assert_eq!(report, SolveReport { iterations: 1, converged: true });
    assert_eq!(positions(&c), vec![(0, -100, 0), (0, 900, 0), (0, 1900, 0), (0, 2500, 5)]);
    assert!(is_taut(&c));
    assert!(bends_within_limit(&c));
}

#[test]
fn solved_chains_are_taut_and_gently_bent_or_out_of_rounds() {
    let mut seed: u64 = 0x2545_f491_4f6c_dd1d;
    let mut next = move |span: i32| -> i32 {
        seed ^= seed << 13;
        seed ^= seed >> 7;
        seed ^= seed << 17;
        ((seed % (2 * span as u64 + 1)) as i32) - span
    };
    let mut converged = 0;
    for round in 0..300 {
        let count = 2 + (round % 11);
        let mut c = if round % 2 == 0 {
            KinematicChain::fish_like(count, 2000, None).unwrap()
        } else {
            KinematicChain::new(count, 2000, Some(p(next(9000), next(9000), 0))).unwrap()
        };
        for _ in 0..4 {
            c.target = p(next(30_000), next(30_000), 0);
            let report = solve(&mut c).unwrap();
            assert!(1 <= report.iterations && report.iterations <= ROUNDS);
            assert_eq!(c.nodes.len(), count);
            assert!(is_loose(&c));
            match c.anchor {
                Some(pin) => {
                    let off = Planar::span(&pin, &c.nodes[count - 1].position).norm2();
                    assert!(off <= 4000 * 4000);
                }
                None => assert_eq!(c.nodes[0].position, c.target),
            }
            if report.converged {
                converged += 1;
                assert!(is_taut(&c));
                assert!(bends_within_limit(&c));
                match c.anchor {
                    Some(pin) => assert_eq!(c.nodes[count - 1].position, pin),
                    None => assert_eq!(c.nodes[0].position, c.target),
                }
            } else {
                assert_eq!(report.iterations, ROUNDS);
            }
            assert!(bends_within_limit(&c) || report.iterations == ROUNDS);
        }
    }
    assert!(converged > 600);
}

#[test]
fn solve_that_runs_out_of_rounds_may_leave_a_stretched_segment() {
    let mut c = chain(&[(-63, -62, 0), (-288, 196, 0), (-114, -31, 0), (-12, -296, 0)], 100);
    c.target = p(-151, 129, 0);
    let report = solve(&mut c).unwrap();
    assert_eq!(report, SolveReport { iterations: 10, converged: false });
    assert_eq!(
        positions(&c),
        vec![(-151, 129, 0), (-240, 172, 0), (-323, 179, 0), (-423, 162, 0)]
    );
    assert!(!is_taut(&c));
    assert!(is_loose(&c));
    assert_eq!(c.nodes[0].position, c.target);
}

#[test]
fn solve_that_runs_out_of_rounds_may_leave_the_tail_off_a_reachable_anchor() {
    let mut c = chain(&[(-144, -2763, 0), (-3769, 3198, 0), (1123, 4381, 0)], 1000);
    c.target = p(99, 2162, 0);
    c.anchor = Some(p(846, 3657, 0));
    let report = solve(&mut c).unwrap();
    assert_eq!(report, SolveReport { iterations: 10, converged: false });
    assert_eq!(positions(&c), vec![(99, 2162, 0), (36, 3072, 0), (312, 4031, 0)]);
    let apart = Planar::span(&c.target, &p(846, 3657, 0)).norm2();
    assert!(apart <= 2000 * 2000);
    let off = Planar::span(&p(846, 3657, 0), &c.nodes[2].position).norm2();
    assert!(off <= 2000 * 2000);
}

fn has_no_slack(chain: &KinematicChain) -> bool {
    let limit = (chain.distance as u128) * (chain.distance as u128);
    chain.nodes.windows(2).all(|w| {
        let s = Planar::span(&w[0].position, &w[1].position);
        let (mx, my) = (s.x.unsigned_abs() as u128 + 1, s.y.unsigned_abs() as u128 + 1);
        s.norm2() <= limit && mx * mx + my * my > limit
    })
}

#[test]
fn far_target_draws_a_taut_chain_out_to_its_full_length() {
    let mut c =
        chain(&[(0, 0, 0), (70, 60, 0), (120, 140, 0), (210, 180, 0), (300, 200, 0)], 100);
    assert!(is_taut(&c));
    c.target = p(-3000, 4100, 0);
    let report = solve(&mut c).unwrap();
    assert_eq!(report, SolveReport { iterations: 1, converged: true });
    assert_eq!(
        positions(&c),
        vec![
            (-3000, 4100, 0),
            (-2940, 4021, 0),
            (-2879, 3943, 0),
            (-2816, 3866, 0),
            (-2752, 3790, 0)
        ]
    );
    assert!(has_no_slack(&c));
}

#[test]
fn far_targets_leave_no_slack_after_the_forward_pass() {
    let mut seed: u64 = 0x9e37_79b9_7f4a_7c15;
    let mut next = move |span: i32| -> i32 {
        seed ^= seed << 13;
        seed ^= seed >> 7;
        seed ^= seed << 17;
        ((seed % (2 * span as u64 + 1)) as i32) - span
    };
    let mut far = 0;
    for round in 0..200 {
        let count = 2 + (round % 9);
        let mut c = KinematicChain::new(count, 500, None).unwrap();
        for _ in 0..5 {
            let target = p(next(20_000), next(20_000), 0);
            let reach = 500 * (count as u128 - 1);
            let tail = c.nodes[count - 1].position;
            if is_taut(&c) && Planar::span(&target, &tail).norm2() > reach * reach {
                far += 1;
                c.nodes[0].position = target;
                forward_kinematics(&mut c);
                assert_eq!(c.nodes[0].position, target);
                assert!(has_no_slack(&c));
            }
        }
    }
    assert!(far > 500);
}

#[test]
fn chain_without_an_anchor_follows_its_head() {
    let mut c = chain(&[(0, 0, 0), (7, 6, 0), (12, 14, 0), (21, 18, 0)], 10);
    c.target = p(300, -400, 0);
    let before = c.nodes.clone();
    let report = solve(&mut c).unwrap();
    assert_eq!(report, SolveReport { iterations: 1, converged: true });
    assert_eq!(positions(&c), vec![(300, -400, 0), (295, -392, 0), (290, -384, 0), (285, -376, 0)]);
    for i in 0..3 {
        assert_eq!(c.nodes[i + 1].position, c.nodes[i].position.pull(&before[i + 1].position, 10));
    }
}

#[test]
fn chain_strung_out_along_an_axis_is_fully_extended() {
    let mut c = chain(&[(5, 5, 0), (-40, 7, 1), (-700, 7, 2), (-31, 7, 3), (-9000, 7, 4)], 10);
    c.target = p(0, 7, 0);
    let report = solve(&mut c).unwrap();
    assert_eq!(report, SolveReport { iterations: 1, converged: true });
    assert_eq!(
        positions(&c),
        vec![(0, 7, 0), (-10, 7, 1), (-20, 7, 2), (-30, 7, 3), (-40, 7, 4)]
    );
}

#[test]
fn chain_with_a_slack_node_is_not_fully_extended() {
    let mut c = chain(&[(0, 0, 0), (5, 0, 0), (100, 0, 0)], 10);
    c.target = p(0, 0, 0);
    let report = solve(&mut c).unwrap();
    assert!(report.converged);
    assert_eq!(positions(&c), vec![(0, 0, 0), (5, 0, 0), (15, 0, 0)]);
}

#[test]
fn target_on_the_head_moves_nothing() {
    let mut c = KinematicChain::new(4, 10, None).unwrap();
    c.target = c.nodes[0].position;
    let before = positions(&c);
    let report = solve(&mut c).unwrap();
    assert_eq!(report, SolveReport { iterations: 1, converged: true });
    assert_eq!(positions(&c), before);
}

#[test]
fn reach_target_keeps_what_drives_the_chain() {
    let mut c = KinematicChain::fish_like(8, 500, Some(p(100, 100, 0))).unwrap();
    c.target = p(-3000, 2000, 4);
    reach_target(&mut c, &p(10, 20, 30)).unwrap();
    assert_eq!(c.target, p(-3000, 2000, 4));
    assert_eq!(c.anchor, Some(p(100, 100, 0)));
    assert_eq!(c.distance, 500);
    assert_eq!(c.skin.len(), 26);
    let radii: Vec<u32> = c.nodes.iter().map(|n| n.radius).collect();
    assert_eq!(radii, vec![437, 437, 375, 312, 250, 187, 125, 62]);
}

#[test]
fn correct_angle_keeps_each_node_as_near_to_where_its_forerunner_was() {
    let mut c = chain(&[(0, 0, 0), (700, 100, 0), (200, 900, 0), (-500, 650, 0), (-450, -90, 0)], 1000);
    let before = positions(&c);
    correct_angle(&mut c);
    let after = positions(&c);
    assert_ne!(before, after);
    for i in 1..before.len() {
        let forerunner = p(before[i - 1].0, before[i - 1].1, 0);
        let was = Planar::span(&forerunner, &p(before[i].0, before[i].1, 0)).norm2();
        let is = Planar::span(&forerunner, &p(after[i].0, after[i].1, 0)).norm2();
        assert!(is <= was);
    }
    assert!(is_loose(&c));
}
