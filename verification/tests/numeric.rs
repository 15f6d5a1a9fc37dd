use kinematic_chain::numeric::isqrt;

#[test]
fn isqrt_of_small_numbers() {
    let expected: [(u128, u64); 10] =
        [(0, 0), (1, 1), (2, 1), (3, 1), (4, 2), (8, 2), (9, 3), (15, 3), (16, 4), (17, 4)];
    for (n, r) in expected {
        assert_eq!(isqrt(n), r, "root of {}", n);
    }
}

#[test]
fn isqrt_rounds_down_next_to_perfect_squares() {
    let base: u128 = 0xffff_ffff;
    assert_eq!(isqrt(base * base), 0xffff_ffff);
    assert_eq!(isqrt(base * base - 1), 0xffff_fffe);
    assert_eq!(isqrt(base * base + 1), 0xffff_ffff);
    assert_eq!(isqrt((base + 1) * (base + 1)), 0x1_0000_0000);
}

#[test]
fn isqrt_of_the_largest_number() {
    assert_eq!(isqrt(u128::MAX), u64::MAX);
}

#[test]
fn isqrt_is_the_largest_root_not_above() {
    let mut n: u128 = 0;
    while n < 5000 {
        let r = isqrt(n) as u128;
        assert!(r * r <= n);
        assert!((r + 1) * (r + 1) > n);
        n += 1;
    }
}
