use squirrel_rng::{u32_1d, SquirrelRng};

fn zero_to_one(index: i32, seed: i32) -> f32 {
    (u32_1d(index, seed) as f64 / u32::MAX as f64) as f32
}

#[test]
fn constructors_set_seed_and_position() {
    let g = SquirrelRng::with_seed(12345);
    assert_eq!(g.seed, 12345);
    assert_eq!(g.index, 0);
    let g = g.with_position(-8);
    assert_eq!(g.seed, 12345);
    assert_eq!(g.index, -8);
    let g = SquirrelRng::from_pos_and_seed(7, 9);
    assert_eq!(g.seed, 7);
    assert_eq!(g.index, 9);
    let g = SquirrelRng::default();
    assert_eq!(g.seed, 0);
    assert_eq!(g.index, 0);
    let g = SquirrelRng::new();
    assert_eq!(g.index, 0);
}

#[test]
fn draws_match_the_stateless_derivers() {
    let mut g = SquirrelRng::with_seed(4242);
    assert_eq!(g.u32(), u32_1d(0, 4242));
    assert_eq!(g.u32(), u32_1d(1, 4242));
    assert_eq!(g.i32(), u32_1d(2, 4242) as i32);
    let high = u32_1d(3, 4242);
    let low = u32_1d(3, high as i32);
    assert_eq!(g.u64(), ((high as u64) << 32) | low as u64);
    assert_eq!(g.i64() as u64, {
        let h = u32_1d(4, 4242);
        ((h as u64) << 32) | u32_1d(4, h as i32) as u64
    });
}

#[test]
fn position_advances_once_per_draw() {
    let mut g = SquirrelRng::from_pos_and_seed(55, 100);
    g.u32();
    g.u64();
    g.i32();
    g.i64();
    g.u8();
    g.bool();
    g.usize(10);
    g.u32_range(1, 9);
    g.i32_range(-4, 4);
    g.u32_cap(77);
    g.i32_cap(-77);
    g.u8_cap(9);
    g.u8_range(3, 5);
    g.usize_range(2, 20);
    assert_eq!(g.index, 114);
    assert_eq!(g.seed, 55);
}

#[test]
fn position_wraps_at_the_32_bit_boundary() {
    let mut g = SquirrelRng::from_pos_and_seed(1, i32::MAX);
    g.u32();
    assert_eq!(g.index, i32::MIN);
    g.u64();
    assert_eq!(g.index, i32::MIN + 1);
}

#[test]
fn goto_matches_fresh_generator() {
    for k in [-100, 0, 77, i32::MAX] {
        let mut walked = SquirrelRng::with_seed(2024);
        walked.u32();
        walked.u32();
        walked.goto(k);
        let mut fresh = SquirrelRng::from_pos_and_seed(2024, k);
        assert_eq!(walked.u32(), fresh.u32());
        assert_eq!(walked.index, fresh.index);
    }
}

#[test]
fn jump_goto_and_seed_controls() {
    let mut g = SquirrelRng::from_pos_and_seed(9, 1000);
    g.jump(-500);
    assert_eq!(g.index, 500);
    g.jump(i32::MAX);
    assert_eq!(g.index, 500i32.wrapping_add(i32::MAX));
    g.goto(-3);
    assert_eq!(g.index, -3);
    g.seed(77);
    assert_eq!(g.seed, 77);
    assert_eq!(g.index, -3);
}

#[test]
fn byte_draws_match_single_precision() {
    let seed: i32 = -808;
    let mut g = SquirrelRng::with_seed(seed);
    for index in 0..600 {
        let z = zero_to_one(index, seed);
        assert_eq!(g.u8(), (z * 256.0f32) as u8);
    }
    let mut g = SquirrelRng::with_seed(seed);
    for index in 0..600 {
        let z = zero_to_one(index, seed);
        assert_eq!(g.u8_cap(200), (z * 200.0f32) as u8);
    }
    let mut g = SquirrelRng::with_seed(seed);
    for index in 0..600 {
        let z = zero_to_one(index, seed);
        let r = g.u8_range(10, 250);
        assert_eq!(r, 10 + (z * 240.0f32) as u8);
        assert!((10..=250).contains(&r));
    }
}

#[test]
fn usize_draws_match_single_precision() {
    let seed: i32 = 161803;
    for max in [0usize, 1, 5, 1000, 0xFFFFFF, 0x1000005, usize::MAX / 3] {
        let mut g = SquirrelRng::with_seed(seed);
        for index in 0..300 {
            let z = zero_to_one(index, seed);
            assert_eq!(g.usize(max), (z * max as f32) as usize, "max {max} at {index}");
        }
    }
    let mut g = SquirrelRng::with_seed(seed);
    for index in 0..300 {
        let z = zero_to_one(index, seed);
        let r = g.usize_range(50, 90);
        assert_eq!(r, 50 + (z * 40.0f32) as usize);
        assert!((50..=90).contains(&r));
    }
}

#[test]
fn ranged_draws_match_the_derivers() {
    let seed: i32 = 31337;
    let mut g = SquirrelRng::with_seed(seed);
    for index in 0..200 {
        assert_eq!(g.u32_range(100, 5000), squirrel_rng::u32_range_1d(100, 5000, index, seed));
    }
    let mut g = SquirrelRng::with_seed(seed);
    for index in 0..200 {
        assert_eq!(g.i32_range(-900, 900), squirrel_rng::i32_range_1d(-900, 900, index, seed));
    }
    let mut g = SquirrelRng::with_seed(seed);
    for index in 0..200 {
        assert_eq!(g.u32_cap(123456), squirrel_rng::u32_cap_1d(123456, index, seed));
    }
    let mut g = SquirrelRng::with_seed(seed);
    for index in 0..200 {
        assert_eq!(g.i32_cap(-123456), squirrel_rng::i32_cap_1d(-123456, index, seed));
    }
}

#[test]
fn bool_matches_the_sign_of_the_signed_draw() {
    let mut a = SquirrelRng::with_seed(5150);
    let mut b = SquirrelRng::with_seed(5150);
    for _ in 0..200 {
        assert_eq!(a.bool(), b.i32() < 0);
    }
    assert_eq!(a.index, b.index);
}

#[test]
fn shuffle_is_a_permutation() {
    let mut g = SquirrelRng::with_seed(777);
    let mut v: Vec<u32> = (0..257).collect();
    g.shuffle(&mut v);
    assert_eq!(v.len(), 257);
    let mut sorted = v.clone();
    sorted.sort();
    let expected: Vec<u32> = (0..257).collect();
    assert_eq!(sorted, expected);
    assert_eq!(g.index, 256);
}

#[test]
fn shuffle_leaves_small_sequences_unchanged() {
    let mut g = SquirrelRng::with_seed(777);
    let mut empty: Vec<i64> = vec![];
    g.shuffle(&mut empty);
    assert!(empty.is_empty());
    let mut one = vec![99u8];
    g.shuffle(&mut one);
    assert_eq!(one, vec![99u8]);
    assert_eq!(g.index, 0);
}

#[test]
fn shuffle_matches_the_reference_walk() {
    let seed: i32 = 20260101;
    let mut g = SquirrelRng::with_seed(seed);
    let mut v: Vec<usize> = (0..64).collect();
    g.shuffle(&mut v);

    let mut expected: Vec<usize> = (0..64).collect();
    let mut index: i32 = 0;
    for n in 1..expected.len() {
        let z = zero_to_one(index, seed);
        index += 1;
        let j = (z * (n + 1) as f32) as usize;
        assert!(j <= n, "boundary draw hit in reference walk");
        expected.swap(n, j);
    }
    assert_eq!(v, expected);
}

#[test]
fn fill_bytes_packs_little_endian_draws() {
    for len in [0usize, 1, 3, 4, 5, 7, 8, 9, 16, 23] {
        let mut g = SquirrelRng::from_pos_and_seed(-12, 40);
        let mut buf = vec![0u8; len];
        g.fill_bytes(&mut buf);

        let mut expected = Vec::new();
        let mut source = SquirrelRng::from_pos_and_seed(-12, 40);
        while expected.len() + 8 <= len {
            expected.extend_from_slice(&source.u64().to_le_bytes());
        }
        let tail = len - expected.len();
        if tail > 4 {
            expected.extend_from_slice(&source.u64().to_le_bytes()[..tail]);
        } else if tail > 0 {
            expected.extend_from_slice(&source.u32().to_le_bytes()[..tail]);
        }
        assert_eq!(buf, expected, "length {len}");
        assert_eq!(g.index, source.index);
        assert_eq!(g.index, 40 + (len / 8) as i32 + if len % 8 == 0 { 0 } else { 1 });
    }
}
