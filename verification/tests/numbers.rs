use oxide_train::arith::block_count;
use oxide_train::bf16::{
    bf16_from_integer, bf16_from_natural, bf16_from_quarters, bf16_to_f32, f32_to_bf16_rne,
    pack_bf16, pack_pair, pack_rows, unpack_bf16, unpack_pair,
};
use oxide_train::float_order::{f32_exceeds, f32_is_nan, f32_rank, f32_same_value};
use oxide_train::launch::LaunchConfig;
use oxide_train::tally::Tally;

#[test]
fn rounding_ties_go_to_the_even_pattern() {
    assert_eq!(f32_to_bf16_rne(0x3f80_0000), 0x3f80);
    assert_eq!(f32_to_bf16_rne(0x3f80_8000), 0x3f80);
    assert_eq!(f32_to_bf16_rne(0x3f81_8000), 0x3f82);
    assert_eq!(f32_to_bf16_rne(0x3f80_8001), 0x3f81);
    assert_eq!(f32_to_bf16_rne(0x3f80_7fff), 0x3f80);
    assert_eq!(f32_to_bf16_rne(0x8000_0000), 0x8000);
}

#[test]
fn rounding_agrees_with_the_half_crate_on_finite_values() {
    let mut bits: u32 = 1;
    for _ in 0..20_000 {
        bits = bits.wrapping_mul(1_664_525).wrapping_add(1_013_904_223);
        let value = f32::from_bits(bits);
        if value.is_finite() {
            assert_eq!(f32_to_bf16_rne(bits), half::bf16::from_f32(value).to_bits());
        }
    }
}

#[test]
fn widening_is_undone_by_rounding() {
    for bits in 0..=0xffffu16 {
        assert_eq!(bf16_to_f32(bits), (bits as u32) << 16);
        if !f32_is_nan(bf16_to_f32(bits)) {
            assert_eq!(f32_to_bf16_rne(bf16_to_f32(bits)), bits);
        }
    }
}

#[test]
fn packing_is_undone_by_unpacking() {
    assert_eq!(pack_pair(0x1234, 0xabcd), 0xabcd_1234);
    assert_eq!(unpack_pair(0xabcd_1234), (0x1234, 0xabcd));
    let values: Vec<u16> = vec![1, 2, 0xffff, 0x8000];
    let words = pack_bf16(&values);
    assert_eq!(words, vec![0x0002_0001, 0x8000_ffff]);
    assert_eq!(unpack_bf16(&words), values);
}

#[test]
fn an_odd_element_is_left_out_of_the_pairs() {
    assert_eq!(pack_bf16(&[7, 8, 9]), vec![0x0008_0007]);
    let input: Vec<u32> = vec![0x3f80_0000, 0xbf80_0000, 0x4000_0000];
    assert_eq!(pack_rows(&input), vec![0xbf80_3f80]);
}

#[test]
fn small_integers_have_their_bf16_patterns() {
    for value in 0..=255u8 {
        let wide = f32::from_bits(bf16_to_f32(bf16_from_natural(value)));
        assert_eq!(wide, value as f32);
    }
    for value in i8::MIN..=i8::MAX {
        let wide = f32::from_bits(bf16_to_f32(bf16_from_integer(value)));
        assert_eq!(wide, value as f32);
    }
    assert_eq!(bf16_from_natural(1), 0x3f80);
    assert_eq!(bf16_from_integer(-1), 0xbf80);
    assert_eq!(bf16_from_integer(-10), 0xc120);
}

#[test]
fn quarters_have_their_bf16_patterns() {
    for value in -4i8..=4 {
        let wide = f32::from_bits(bf16_to_f32(bf16_from_quarters(value)));
        assert_eq!(wide, value as f32 / 4.0);
    }
    assert_eq!(bf16_from_quarters(1), 0x3e80);
    assert_eq!(bf16_from_quarters(-3), 0xbf40);
    assert_eq!(bf16_from_quarters(0), 0);
}

#[test]
fn patterns_compare_as_their_values_do() {
    let values = [
        0.0f32,
        -0.0,
        1.0,
        -1.0,
        0.5,
        -2.5,
        f32::MAX,
        f32::MIN,
        f32::INFINITY,
        f32::NEG_INFINITY,
        f32::NAN,
        1.0e-40,
    ];
    for a in values {
        for b in values {
            assert_eq!(f32_exceeds(a.to_bits(), b.to_bits()), a > b);
            assert_eq!(f32_same_value(a.to_bits(), b.to_bits()), a == b);
        }
        assert_eq!(f32_is_nan(a.to_bits()), a.is_nan());
    }
    assert_eq!(f32_rank(0x8000_0000), 0);
    assert_eq!(f32_rank(0x8000_0001), -1);
    assert_eq!(f32_rank(0x3f80_0000), 0x3f80_0000);
}

#[test]
fn elementwise_launches_cover_and_do_not_overshoot() {
    let config = LaunchConfig::for_num_elems(1000);
    assert_eq!(config.grid_dim, (4, 1, 1));
    assert_eq!(config.block_dim, (256, 1, 1));
    assert_eq!(config.shared_mem_bytes, 0);
    assert_eq!(LaunchConfig::for_num_elems(0).grid_dim.0, 0);
    assert_eq!(LaunchConfig::for_num_elems(256).grid_dim.0, 1);
    assert_eq!(LaunchConfig::for_num_elems(257).grid_dim.0, 2);
    assert_eq!(LaunchConfig::for_num_elems(u32::MAX).grid_dim.0, 16_777_216);
    assert_eq!(block_count(0, 7), 0);
    assert_eq!(block_count(usize::MAX, 1), usize::MAX);
}

#[test]
fn a_tally_counts_all_and_keeps_the_first() {
    let mut tally = Tally::new(2);
    assert_eq!(tally.wrong(), 0);
    for place in [5usize, 9, 11] {
        tally.note(place);
    }
    assert_eq!(tally.wrong(), 3);
    assert_eq!(tally.samples(), &vec![5usize, 9]);
}
