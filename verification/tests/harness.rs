use color_match::harness::{
    draw_color, fill_buffer, first_mismatch, scalar_pass, Totals, BENCHMARK_RUNS, BRIEF_CHECK,
    FULL_CHECK,
};
use color_match::lfsr::{lfsr_fib, Lfsr};
use color_match::scalar::my;
use color_match::vector::{lane_byte_at, my_simd, pack_lanes};

#[test]
fn benchmark_sizes_are_fixed() {
    assert_eq!(BENCHMARK_RUNS, 100_000);
    assert_eq!(FULL_CHECK, 512);
    assert_eq!(BRIEF_CHECK, 64);
}

#[test]
fn color_is_the_top_two_bits_of_a_draw() {
    let mut lfsr = Lfsr::new();
    // the first byte drawn is 0x91
    assert_eq!(draw_color(&mut lfsr), 0b10);
    assert_eq!(lfsr.state(), 0x5791);
    let mut a = Lfsr::with_seed(0x1D2C);
    let mut b = a;
    for _ in 0..1000 {
        let color = draw_color(&mut a);
        assert!(color <= 3);
        assert_eq!(color, lfsr_fib(&mut b) >> 6);
    }
}

#[test]
fn buffer_is_the_next_512_draws() {
    let mut lfsr = Lfsr::new();
    draw_color(&mut lfsr);
    let mut other = lfsr;
    let bytes = fill_buffer(&mut lfsr);
    assert_eq!(bytes[..8], [0xC8, 0xE4, 0xF2, 0x79, 0xBC, 0x5E, 0xAF, 0x57]);
    for byte in bytes {
        assert_eq!(byte, lfsr_fib(&mut other));
    }
    assert_eq!(lfsr.state(), 0xC26C);
    assert_eq!(other.state(), 0xC26C);
}

#[test]
fn scalar_pass_matches_every_byte() {
    let mut lfsr = Lfsr::new();
    let bytes = fill_buffer(&mut lfsr);
    for color in 0..=5u8 {
        let masks = scalar_pass(color, &bytes);
        for i in 0..512 {
            assert_eq!(masks[i], my(color, bytes[i]));
        }
    }
}

#[test]
fn first_round_by_hand() {
    let mut lfsr = Lfsr::new();
    let color = draw_color(&mut lfsr);
    let bytes = fill_buffer(&mut lfsr);
    let lanes = pack_lanes(&bytes);
    assert_eq!(lanes[0], 0x57AF_5EBC_79F2_E4C8);
    assert_eq!(lanes[63], 0x6CD8_B061_C285_0B16);
    let vector = my_simd(color, lanes);
    assert_eq!(vector[0], 0x00A0_0280_0802_2008);
    let scalar = scalar_pass(color, &bytes);
    assert_eq!(scalar[..8], [0x08, 0x20, 0x02, 0x08, 0x80, 0x02, 0xA0, 0x00]);
    assert_eq!(first_mismatch(&scalar, &vector, FULL_CHECK), None);
}

#[test]
fn ten_rounds_find_no_mismatch() {
    let mut lfsr = Lfsr::new();
    let mut totals = Totals::new();
    for round in 0..10u128 {
        let color = draw_color(&mut lfsr);
        let bytes = fill_buffer(&mut lfsr);
        let lanes = pack_lanes(&bytes);
        let vector = my_simd(color, lanes);
        let scalar = scalar_pass(color, &bytes);
        assert_eq!(first_mismatch(&scalar, &vector, BRIEF_CHECK), None);
        assert_eq!(first_mismatch(&scalar, &vector, FULL_CHECK), None);
        totals = totals.record(3, 5 + round).unwrap();
    }
    assert_eq!(lfsr.state(), 0x24DB);
    assert_eq!(totals.vector_ns, 30);
    assert_eq!(totals.scalar_ns, 95);
}

#[test]
fn matchers_agree_on_every_color_and_byte() {
    for color in 0..=3u8 {
        let mut bytes = [0u8; 512];
        for (i, byte) in bytes.iter_mut().enumerate() {
            *byte = (i % 256) as u8;
        }
        let vector = my_simd(color, pack_lanes(&bytes));
        let scalar = scalar_pass(color, &bytes);
        assert_eq!(first_mismatch(&scalar, &vector, FULL_CHECK), None);
        for i in 0..512 {
            assert_eq!(lane_byte_at(&vector, i), my(color, bytes[i]));
        }
    }
}

#[test]
fn first_mismatch_is_the_lowest_position() {
    let bytes = [0b01_10_11_00u8; 512];
    let vector = my_simd(1, pack_lanes(&bytes));
    let mut scalar = scalar_pass(1, &bytes);
    assert_eq!(first_mismatch(&scalar, &vector, FULL_CHECK), None);
    scalar[300] ^= 0x80;
    scalar[77] ^= 0x02;
    scalar[400] ^= 0xFF;
    assert_eq!(first_mismatch(&scalar, &vector, FULL_CHECK), Some(77));
    scalar[77] ^= 0x02;
    assert_eq!(first_mismatch(&scalar, &vector, FULL_CHECK), Some(300));
}

#[test]
fn first_mismatch_looks_no_further_than_asked() {
    let bytes = [0xE4u8; 512];
    let vector = my_simd(2, pack_lanes(&bytes));
    let mut scalar = scalar_pass(2, &bytes);
    scalar[64] ^= 0x20;
    assert_eq!(first_mismatch(&scalar, &vector, 0), None);
    assert_eq!(first_mismatch(&scalar, &vector, BRIEF_CHECK), None);
    assert_eq!(first_mismatch(&scalar, &vector, 65), Some(64));
    assert_eq!(first_mismatch(&scalar, &vector, FULL_CHECK), Some(64));
    scalar[64] ^= 0x20;
    scalar[511] ^= 0x08;
    assert_eq!(first_mismatch(&scalar, &vector, 511), None);
    assert_eq!(first_mismatch(&scalar, &vector, 512), Some(511));
    assert_eq!(first_mismatch(&scalar, &vector, 513), Some(511));
    assert_eq!(first_mismatch(&scalar, &vector, usize::MAX), Some(511));
    scalar[511] ^= 0x08;
    assert_eq!(first_mismatch(&scalar, &vector, usize::MAX), None);
}

#[test]
fn a_wide_color_is_where_the_matchers_part() {
    // the scalar matcher tiles 4 as it is, the vector matcher treats it as 0
    let bytes = [0x54u8; 512];
    let vector = my_simd(4, pack_lanes(&bytes));
    let scalar = scalar_pass(4, &bytes);
    assert_eq!(scalar[0], 0xAA);
    assert_eq!(lane_byte_at(&vector, 0), 0x02);
    assert_eq!(first_mismatch(&scalar, &vector, FULL_CHECK), Some(0));
}

#[test]
fn totals_start_at_zero() {
    let totals = Totals::new();
    assert_eq!(totals.vector_ns, 0);
    assert_eq!(totals.scalar_ns, 0);
}

#[test]
fn totals_add_up() {
    let totals = Totals::new().record(120, 4_500).unwrap();
    assert_eq!((totals.vector_ns, totals.scalar_ns), (120, 4_500));
    let totals = totals.record(80, 5_500).unwrap();
    assert_eq!((totals.vector_ns, totals.scalar_ns), (200, 10_000));
    let totals = totals.record(0, 0).unwrap();
    assert_eq!((totals.vector_ns, totals.scalar_ns), (200, 10_000));
}

#[test]
fn totals_refuse_to_wrap() {
    let full = Totals::new().record(u128::MAX, u128::MAX - 1).unwrap();
    assert!(full.record(1, 0).is_none());
    assert!(full.record(0, 2).is_none());
    assert!(full.record(1, 2).is_none());
    let still = full.record(0, 1).unwrap();
    assert_eq!((still.vector_ns, still.scalar_ns), (u128::MAX, u128::MAX));
}
