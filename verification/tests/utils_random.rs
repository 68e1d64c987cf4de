use stdt::utils::random::{choose_iter, generator_u128, integer_in, mixer, pick, prng};

fn seed(k: u64) -> u128 {
    generator_u128(k, (k as u128).wrapping_mul(0x9E37_79B9_7F4A_7C15_0123_4567))
}

#[test]
fn integer_in_respects_range_small_negative_to_positive() {
    for k in 0..1_000 {
        let x = integer_in(-10, 10, seed(k));
        assert!((-10..=10).contains(&x));
    }
}

#[test]
fn integer_in_respects_range_negative_only() {
    for k in 0..1_000 {
        let x = integer_in(-50, -1, seed(k));
        assert!((-50..=-1).contains(&x));
    }
}

#[test]
fn integer_in_respects_range_positive_only() {
    for k in 0..1_000 {
        let x = integer_in(0, 50, seed(k));
        assert!((0..=50).contains(&x));
    }
}

#[test]
fn integer_in_returns_exact_when_bounds_equal() {
    assert_eq!(integer_in(42, 42, seed(1)), 42);
    assert_eq!(integer_in(-7, -7, seed(2)), -7);
}

#[test]
fn choose_empty_returns_none() {
    let s: [i32; 0] = [];
    assert!(pick(&s, seed(3)).is_none());
}

#[test]
fn choose_returns_one_of_elements() {
    let s = [10, 20, 30, 40];
    for k in 0..100 {
        let v = pick(&s, seed(k)).unwrap();
        assert!(s.contains(v));
    }
}

#[test]
fn choose_iter_empty_returns_none() {
    let v: Vec<i32> = vec![];
    assert!(choose_iter(v, seed(4)).is_none());
}

#[test]
fn choose_iter_returns_from_iterable() {
    let v = vec!["a", "b", "c"];
    for k in 0..100 {
        let picked = choose_iter(v.clone(), seed(k)).unwrap();
        assert!(v.contains(&picked));
    }
}

#[test]
fn integer_in_exact_picks() {
    assert_eq!(integer_in(-10, 10, 0), -10);
    assert_eq!(integer_in(-10, 10, 20), 10);
    assert_eq!(integer_in(-10, 10, 21), -10);
    assert_eq!(integer_in(-10, 10, 25), -6);
    assert_eq!(integer_in(0, 9, 1234), 4);
    assert_eq!(integer_in(i128::MIN, i128::MAX, 0), 0);
    assert_eq!(integer_in(i128::MIN, i128::MAX, 5), 5);
    assert_eq!(integer_in(i128::MIN, i128::MAX, u128::MAX), -1);
    assert_eq!(integer_in(i128::MIN, i128::MAX, 1u128 << 127), i128::MIN);
    assert_eq!(integer_in(i128::MIN, i128::MAX - 1, u128::MAX), i128::MIN);
    assert_eq!(integer_in(i128::MIN, 0, 3), i128::MIN + 3);
    assert_eq!(integer_in(i128::MAX - 1, i128::MAX, 3), i128::MAX);
    assert_eq!(*pick(&[10, 20, 30], 4).unwrap(), 20);
    assert_eq!(choose_iter(vec!['a', 'b', 'c'], 5), Some('c'));
}

#[test]
fn generator_matches_its_formula() {
    let mut h: u64 = 0x9E37_79B9_7F4A_7C15;
    mixer(&mut h, 7);
    let expected = (0x9E37_79B9_7F4A_7C15u64 ^ 7u64.wrapping_mul(0x9E37_79B9_7F4A_7C15))
        .rotate_left(27)
        .wrapping_mul(0x94D0_49BB_1331_11EB);
    assert_eq!(h, expected);

    let mut state: u64 = 1;
    let out = prng(&mut state);
    let mut x: u64 = 1;
    x ^= x >> 12;
    x ^= x << 25;
    x ^= x >> 27;
    assert_eq!(state, x);
    assert_eq!(out, x.wrapping_mul(0x2545_F491_4F6C_DD1D));

    let ts: u128 = (3u128 << 64) | 11;
    let mut h: u64 = 0x9E37_79B9_7F4A_7C15;
    mixer(&mut h, 5);
    mixer(&mut h, 3);
    mixer(&mut h, 11);
    let mut state = if h == 0 { 1 } else { h };
    let mut bytes = [0u8; 16];
    bytes[..8].copy_from_slice(&prng(&mut state).to_be_bytes());
    bytes[8..].copy_from_slice(&prng(&mut state).to_be_bytes());
    assert_eq!(generator_u128(5, ts), u128::from_be_bytes(bytes));
    assert_eq!(generator_u128(5, ts), generator_u128(5, ts));
}
