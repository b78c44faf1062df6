use squirrel_rng::{
    i32_cap_1d, i32_range_1d, i64_1d, i64_2d, u32_1d, u32_2d, u32_3d, u32_4d, u32_cap_1d,
    u32_range_1d, u64_1d, u64_2d, u64_3d, u64_4d,
};

const PRIME1: i32 = 198491317;
const PRIME2: i32 = 6542989;
const PRIME3: i32 = 357239;

fn zero_to_one(index: i32, seed: i32) -> f32 {
    (u32_1d(index, seed) as f64 / u32::MAX as f64) as f32
}

#[test]
fn known_values() {
    let test_cases: &[(i32, i32, u32)] = &[
        (0, 0, 0x16791E00),
        (1, 0, 0xC895CB1D),
        (-1, 0, 0xFAF16D54),
        (123, 456, 0x0771723F),
        (-123, 456, 0x09B50E33),
        (2147483647, -1, 0x1697A56A),
        (-2147483648, 0, 0x679CCD13),
        (42, 1337, 0x968DE4C9),
        (9999, 9999, 0x173A5069),
        (314159, 271828, 0xEFA3B8DC),
    ];
    for &(index, seed, expected) in test_cases {
        let result = u32_1d(index, seed);
        assert_eq!(
            result, expected,
            "Failed for index: {index}, seed: {seed}. Expected: {expected:#010X}, Got: {result:#010X}",
        );
    }
}

#[test]
fn repeated_calls_are_identical() {
    for index in [-7, 0, 1, 93, i32::MAX, i32::MIN] {
        for seed in [0, -1, 42, 271828] {
            assert_eq!(u32_1d(index, seed), u32_1d(index, seed));
            assert_eq!(u64_1d(index, seed), u64_1d(index, seed));
        }
    }
}

#[test]
fn dimensions_linearize_with_primes() {
    for (x, y, z, w, seed) in [
        (0i32, 0i32, 0i32, 0i32, 0i32),
        (3, -9, 14, 2, 77),
        (-100000, 99999, 123, -456, -1),
        (i32::MAX, i32::MIN, 7, -7, 31415),
    ] {
        let l2 = x.wrapping_add(y.wrapping_mul(PRIME1));
        let l3 = l2.wrapping_add(z.wrapping_mul(PRIME2));
        let l4 = l3.wrapping_add(w.wrapping_mul(PRIME3));
        assert_eq!(u32_2d(x, y, seed), u32_1d(l2, seed));
        assert_eq!(u32_3d(x, y, z, seed), u32_1d(l3, seed));
        assert_eq!(u32_4d(x, y, z, w, seed), u32_1d(l4, seed));
        assert_eq!(u64_2d(x, y, seed), u64_1d(l2, seed));
        assert_eq!(u64_3d(x, y, z, seed), u64_1d(l3, seed));
        assert_eq!(u64_4d(x, y, z, w, seed), u64_1d(l4, seed));
        assert_eq!(i64_2d(x, y, seed), i64_1d(l2, seed));
    }
}

#[test]
fn sixty_four_bit_composition() {
    for index in [-5000, -1, 0, 1, 12345, i32::MAX, i32::MIN] {
        for seed in [0, 9999, -271828] {
            let v = u64_1d(index, seed);
            let high = (v >> 32) as u32;
            let low = v as u32;
            assert_eq!(high, u32_1d(index, seed));
            assert_eq!(low, u32_1d(index, high as i32));
            assert_eq!(i64_1d(index, seed), v as i64);
        }
    }
}

#[test]
fn u32_cap_matches_single_precision() {
    let caps: [u32; 15] = [
        0,
        1,
        2,
        7,
        100,
        255,
        256,
        65535,
        0xFFFFFF,
        0x1000000,
        0x1000001,
        0x1000002,
        0x1000003,
        123456789,
        u32::MAX,
    ];
    for seed in [0, 456, -99999] {
        for index in -400..400 {
            let z = zero_to_one(index, seed);
            for &cap in &caps {
                let expected = (cap as f32 * z) as u32;
                assert_eq!(u32_cap_1d(cap, index, seed), expected, "cap {cap} at {index}/{seed}");
            }
        }
    }
}

#[test]
fn u32_range_matches_single_precision() {
    let ranges: [(u32, u32); 8] = [
        (0, 0),
        (0, 10),
        (5, 6),
        (100, 4096),
        (0, 0xFFFFFF),
        (17, 0x1000020),
        (0, u32::MAX),
        (u32::MAX - 300, u32::MAX),
    ];
    for seed in [1337, -2] {
        for index in -300..300 {
            let z = zero_to_one(index, seed);
            for &(min, max) in &ranges {
                let expected = min.wrapping_add(((max - min) as f32 * z) as u32);
                assert_eq!(u32_range_1d(min, max, index, seed), expected);
            }
        }
    }
}

#[test]
fn u32_range_stays_in_narrow_bounds() {
    for seed in [0, 7, -7] {
        for index in -500..500 {
            let r = u32_range_1d(10, 1000, index, seed);
            assert!(10 <= r && r <= 1000);
            let r = u32_range_1d(0, 0xFFFFFF, index, seed);
            assert!(r <= 0xFFFFFF);
            let r = u32_range_1d(42, 42, index, seed);
            assert_eq!(r, 42);
        }
    }
}

#[test]
fn i32_cap_matches_single_precision() {
    let caps: [i32; 12] = [
        0,
        1,
        -1,
        100,
        -100,
        0xFFFFFF,
        -0xFFFFFF,
        0x1000003,
        -0x1000003,
        i32::MAX,
        i32::MIN,
        -65536,
    ];
    for seed in [0, 31337] {
        for index in -300..300 {
            let z = zero_to_one(index, seed);
            for &cap in &caps {
                let expected = (cap as f32 * z) as i32;
                assert_eq!(i32_cap_1d(cap, index, seed), expected, "cap {cap} at {index}/{seed}");
            }
        }
    }
}

#[test]
fn i32_range_matches_single_precision() {
    let ranges: [(i32, i32); 8] = [
        (0, 0),
        (-10, 10),
        (-4096, -100),
        (5, 6),
        (-0x800000, 0x7FFFFF),
        (i32::MIN, i32::MAX),
        (i32::MIN, 0),
        (-3, i32::MAX),
    ];
    for seed in [99, -31415] {
        for index in -300..300 {
            let z = zero_to_one(index, seed);
            for &(min, max) in &ranges {
                let expected = min.wrapping_add((max.wrapping_sub(min) as f32 * z) as i32);
                assert_eq!(i32_range_1d(min, max, index, seed), expected);
            }
        }
    }
}

#[test]
fn i32_range_stays_in_narrow_bounds() {
    for seed in [123] {
        for index in -500..500 {
            let r = i32_range_1d(-50, 70, index, seed);
            assert!(-50 <= r && r <= 70);
            let r = i32_range_1d(-9, -9, index, seed);
            assert_eq!(r, -9);
        }
    }
}

#[test]
fn zero_to_one_draws_lie_in_unit_interval() {
    for seed in [0, -1, 271828] {
        for index in -1000..1000 {
            let z = zero_to_one(index, seed);
            assert!((0.0..=1.0).contains(&z));
        }
    }
}
