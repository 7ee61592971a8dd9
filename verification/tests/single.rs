use rdpterm::grid::cell_count;
use rdpterm::single::round_to_24;
use rdpterm::single::Single;

/// A list of pseudo-random numbers.
fn numbers(seed: u64, count: usize) -> Vec<u64> {
    let mut state = seed;
    let mut list = Vec::new();
    for _ in 0..count {
        state = state
            .wrapping_mul(6_364_136_223_846_793_005)
            .wrapping_add(1_442_695_040_888_963_407);
        list.push(state >> 16);
    }
    list
}

fn single(v: f32) -> Single {
    Single::from_bits(v.to_bits()).unwrap()
}

/// Positive numbers of very different sizes.
fn sizes(seed: u64, count: usize) -> Vec<f32> {
    numbers(seed, count)
        .iter()
        .map(|n| f32::from_bits(((90 + (n >> 24) % 75) as u32) << 23 | (n & 0x7F_FFFF) as u32))
        .collect()
}

#[test]
fn bits_round_trip() {
    for n in numbers(1, 20_000) {
        let bits = n as u32;
        let v = f32::from_bits(bits);
        match Single::from_bits(bits) {
            Some(s) => {
                assert!(v > 0.0 && v.is_finite());
                assert_eq!(s.to_bits(), bits);
            }
            None => assert!(!(v > 0.0 && v.is_finite())),
        }
    }
    for bits in [1u32, 2, 3, 0x7F_FFFF, 0x80_0000, 0x80_0001, 0x7F7F_FFFF] {
        assert_eq!(Single::from_bits(bits).unwrap().to_bits(), bits);
    }
    for bits in [0u32, 0x8000_0000, 0x8000_0001, 0x7F80_0000, 0x7FC0_0000, 0xBF80_0000] {
        assert!(Single::from_bits(bits).is_none());
    }
}

#[test]
fn one_and_a_half_is_taken_apart() {
    assert_eq!(single(1.5), Single { significand: 0xC0_0000, exponent: -23 });
    assert_eq!(single(16.0), Single { significand: 0x80_0000, exponent: -19 });
    assert_eq!(single(0.7), Single { significand: 11_744_051, exponent: -24 });
    assert_eq!(single(1.2), Single { significand: 10_066_330, exponent: -23 });
    assert_eq!(single(0.6), Single { significand: 10_066_330, exponent: -24 });
    assert_eq!(single(0.85), Single { significand: 14_260_634, exponent: -24 });
}

#[test]
fn products_are_rounded_like_binary32() {
    let a = sizes(2, 20_000);
    let b = sizes(3, 20_000);
    for (x, y) in a.iter().zip(&b) {
        let p = x * y;
        if p.is_normal() {
            assert_eq!(single(*x).mul(&single(*y)).to_bits(), p.to_bits());
        }
    }
}

#[test]
fn quotients_are_rounded_like_binary32() {
    let a = sizes(4, 20_000);
    let b = sizes(5, 20_000);
    for (x, y) in a.iter().zip(&b) {
        let q = x / y;
        if q.is_normal() {
            assert_eq!(single(*x).div(&single(*y)).to_bits(), q.to_bits());
        }
    }
    for n in 1..200u64 {
        for d in 1..200u64 {
            let q = n as f32 / d as f32;
            let s = Single::from_whole(n).div(&Single::from_whole(d));
            assert_eq!(s.to_bits(), q.to_bits());
        }
    }
}

#[test]
fn whole_numbers_are_rounded_like_binary32() {
    for n in numbers(6, 20_000) {
        let n = (n << 16 | 1) >> (n % 60);
        if n > 0 {
            assert_eq!(Single::from_whole(n).to_bits(), (n as f32).to_bits());
        }
    }
    assert_eq!(Single::from_whole(16_777_217).to_bits(), 16_777_216f32.to_bits());
    assert_eq!(Single::from_whole(16_777_219).to_bits(), 16_777_220f32.to_bits());
}

#[test]
fn whole_parts_are_cut_off_and_capped() {
    for v in sizes(7, 20_000) {
        assert_eq!(single(v).floor(u32::MAX as u64), (v as u32) as u64);
        assert_eq!(single(v).floor_doubled(u32::MAX as u64), ((v * 2.0) as u32) as u64);
        assert_eq!(single(v).floor(u16::MAX as u64), (v as u16) as u64);
    }
    assert_eq!(single(19.2).floor(1000), 19);
    assert_eq!(single(0.99).floor(1000), 0);
    assert_eq!(single(5000.0).floor(1000), 1000);
}

#[test]
fn cell_edges_are_those_of_binary32() {
    for v in [9.6f32, 9.601_563, 19.2, 16.8, 7.2, 0.3, 1.0, 123.456] {
        for n in 0..3_000usize {
            assert_eq!(single(v).cell_edge(n), (n as f32 * v).floor() as usize);
        }
        for n in [16_777_216usize, 16_777_217, 33_554_435, 1_000_000_007] {
            assert_eq!(single(v).cell_edge(n), (n as f32 * v).floor() as usize);
        }
    }
    assert_eq!(single(9.6).cell_edge(10), 96);
    assert_eq!(single(19.2).cell_edge(3), 57);
}

#[test]
fn ties_go_to_the_even_neighbour() {
    assert_eq!(round_to_24(0), 0);
    assert_eq!(round_to_24(16_777_215), 16_777_215);
    assert_eq!(round_to_24(16_777_217), 16_777_216);
    assert_eq!(round_to_24(16_777_219), 16_777_220);
    assert_eq!(round_to_24(33_554_431), 33_554_432);
    assert_eq!(round_to_24(1 << 100), 1 << 100);
}

#[test]
fn cell_counts_are_those_of_binary32() {
    for v in [9.6f32, 9.601_563, 19.2, 16.8, 7.2, 0.3, 1.0, 123.456, 70_000.0, 1.0e-9] {
        for extent in 0..=u16::MAX {
            assert_eq!(cell_count(extent, &single(v)), (extent as f32 / v) as u16);
        }
    }
    assert_eq!(cell_count(1600, &single(9.6)), 166);
    assert_eq!(cell_count(900, &single(19.2)), 46);
}

#[test]
fn counted_cells_fit_and_one_more_does_not() {
    for v in [9.6f32, 19.2, 7.0, 3.3, 11.1] {
        for extent in (0..=u16::MAX).step_by(7) {
            let n = cell_count(extent, &single(v)) as usize;
            assert!(single(v).cell_edge(n) <= extent as usize);
            assert!(extent as usize <= single(v).cell_edge(n + 1));
        }
    }
}

#[test]
fn text_has_sizes_of_a_middling_range() {
    for v in [16.0f32, 1.0, 0.001, 9.0e18, f32::from_bits(0x0100_0000)] {
        assert!(single(v).fits_text());
        assert_eq!(single(v).mul(&single(1.2)), single(v * 1.2));
        assert_eq!(single(v).mul(&single(0.6)), single(v * 0.6));
    }
    for v in [1.0e19f32, f32::MAX, f32::from_bits(0x00FF_FFFF), f32::from_bits(1)] {
        assert!(!single(v).fits_text());
    }
}
