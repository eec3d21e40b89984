use oxide_train::gemm::cublaslt::{Form, OutElement};
use oxide_train::gemm::host::Operand;
use oxide_train::gemm::model_shapes::{
    agree_bf16, agree_f32, agrees, case, disagreement, first_difference, form, is_verified,
    model_case, operand, out_element, packed_element, Disagreement, Mode, BF16_TOLERANCE, CASES,
    F32_TOLERANCE, MODEL_VERIFY_ELEMENTS, SQUARE_TOLERANCE,
};
use oxide_train::gemm::periodic::{
    a_value, b_value, compare_periodic, periodic_operand, periodic_table,
};
use oxide_train::gemm::residency::{analyze, Bisection};
use oxide_train::gemm::stagger::{encode, stagger_case, DELAYS, STAGGER_CASES};
use oxide_train::gemm::toolkit::linux_architecture;

#[test]
fn modes_are_labelled_and_two_are_transposed() {
    let modes = [Mode::F32Store, Mode::F32AccumulateT, Mode::Bf16Store, Mode::Bf16AccumulateT];
    assert_eq!(modes.map(Mode::transposed), [false, true, false, true]);
    assert_eq!(modes.map(Mode::label), ["f32 store", "f32 acc-T", "bf16 store", "bf16 acc-T"]);
}

#[test]
fn model_shapes_divide_into_whole_tiles() {
    for index in 0..CASES {
        let shape = model_case(index);
        assert!(shape.m % 256 == 0 && shape.n % 256 == 0 && shape.k % 256 == 0);
    }
    let last = model_case(13);
    assert_eq!((last.name, last.m, last.k, last.n), ("bwd lm_head dW", 3072, 24576, 50432));
    assert_eq!(form(&last), Form::AccumulateTransposed);
    assert_eq!(out_element(&last), OutElement::Bf16);
    assert_eq!(form(&model_case(0)), Form::Store);
    assert_eq!(out_element(&model_case(7)), OutElement::F32);
    assert_eq!(model_case(0).tiles(), 96 * 36);
}

#[test]
fn the_mode_says_which_axis_a_map_is_wide_along() {
    let store = case("store", 256, 512, 768, Mode::F32Store);
    let map = store.operand_map(64, store.m);
    assert_eq!((map.a.width, map.a.height), (512, 256));
    let fold = case("fold", 256, 512, 768, Mode::F32AccumulateT);
    let map = fold.operand_map(64, fold.n);
    assert_eq!((map.b.width, map.b.height), (768, 512));
}

#[test]
fn operands_are_drawn_the_same_on_every_run() {
    let mut state = 13u64.wrapping_mul(6_364_136_223_846_793_005).wrapping_add(1);
    let drawn = operand(1000, 13);
    for bits in &drawn {
        state = state
            .wrapping_mul(6_364_136_223_846_793_005)
            .wrapping_add(1_442_695_040_888_963_407);
        let value = ((state >> 33) % 9) as f32 / 4.0 - 1.0;
        assert_eq!(*bits, half::bf16::from_f32(value).to_bits());
    }
    assert_eq!(operand(10, 13)[..], drawn[..10]);
}

#[test]
fn packed_elements_are_widened_from_their_half() {
    let words = [0xbf80_3f80u32, 0x0000_4000];
    let read = |index: usize| f32::from_bits(packed_element(&words, index));
    assert_eq!([read(0), read(1), read(2), read(3)], [1.0, -1.0, 2.0, 0.0]);
}

#[test]
fn tolerances_are_their_fractions() {
    assert_eq!(F32_TOLERANCE, (1.0f32 / 32.0).to_bits());
    assert_eq!(BF16_TOLERANCE, (4.0f32 / 256.0).to_bits());
    assert_eq!(SQUARE_TOLERANCE, (2.0f32 / 256.0).to_bits());
}

#[test]
fn results_agree_up_to_the_tolerance() {
    let shape = case("small", 2, 4, 3, Mode::F32Store);
    let errors: Vec<u32> = [0.0f32, 0.03125, 0.0, 0.0, 0.0, 0.01].map(f32::to_bits).to_vec();
    assert_eq!(agree_f32(&errors, &shape), Ok(()));
    assert_eq!(
        agree_bf16(&errors, &shape),
        Err(Disagreement { wrong: 1, elements: 6, error: errors[1], row: 0, column: 1 })
    );
    assert_eq!(
        agrees(&errors, 2, 3),
        Err(Disagreement { wrong: 2, elements: 6, error: errors[1], row: 0, column: 1 })
    );
    let ties: Vec<u32> = [0.0f32, 0.0, 0.0, 0.0, 2.0, 2.0].map(f32::to_bits).to_vec();
    assert_eq!(
        agree_f32(&ties, &shape),
        Err(Disagreement { wrong: 2, elements: 6, error: ties[4], row: 1, column: 1 })
    );
}

#[test]
fn a_nan_error_is_not_counted() {
    let shape = case("nan", 1, 1, 2, Mode::F32Store);
    assert_eq!(agree_f32(&[f32::NAN.to_bits(), 0], &shape), Ok(()));
    assert_eq!(disagreement(0, 9, 9, 1, 2), Ok(()));
    assert_eq!(agrees(&[], 0, 0), Ok(()));
}

#[test]
fn large_products_are_not_compared() {
    assert!(is_verified(4096, 3072, MODEL_VERIFY_ELEMENTS));
    assert!(!is_verified(24576, 9216, MODEL_VERIFY_ELEMENTS));
}

#[test]
fn the_first_difference_is_by_bits() {
    let zero = [0.0f32.to_bits(), (-0.0f32).to_bits(), 1];
    assert_eq!(first_difference(&zero, &[0, 0, 2], 3), Some(1));
    assert_eq!(first_difference(&zero, &[0, 0x8000_0000, 2], 2), None);
}

#[test]
fn periodic_products_repeat_over_rows_and_columns() {
    let k = 40;
    let table = periodic_table(k);
    for row in [0usize, 6, 7, 50] {
        for column in [0usize, 20, 21, 99] {
            let sum: i64 =
                (0..k).map(|d| a_value(row, d) as i64 * b_value(column, d) as i64).sum();
            assert_eq!(sum, table[21 * (row % 7) + column % 21]);
        }
    }
    assert_eq!((a_value(1, 1), b_value(1, 1)), (-2, -1));
}

#[test]
fn periodic_operands_are_exact_in_bf16() {
    let staged = periodic_operand(Operand::B, 30, 8);
    assert_eq!(staged.len(), 240);
    for line in 0..30 {
        for step in 0..8 {
            let value = half::bf16::from_bits(staged[line * 8 + step]).to_f32();
            assert_eq!(value, b_value(line, step) as f32);
        }
    }
    assert_eq!(periodic_operand(Operand::A, 1, 1), vec![half::bf16::from_f32(-3.0).to_bits()]);
}

#[test]
fn a_misplaced_periodic_element_is_found() {
    let (m, n) = (9usize, 23usize);
    let reference: Vec<u32> = periodic_table(16)
        .iter()
        .map(|&sum| half::bf16::from_f32(sum as f32).to_f32().to_bits())
        .collect();
    let mut observed: Vec<u32> = (0..m * n)
        .map(|i| reference[21 * ((i / n) % 7) + (i % n) % 21])
        .collect();
    assert_eq!(compare_periodic(&observed, &reference, m, n).wrong(), 0);
    observed[5 * n + 2] = 1000.0f32.to_bits();
    let tally = compare_periodic(&observed, &reference, m, n);
    assert_eq!((tally.wrong(), tally.samples()[0]), (1, 5 * n + 2));
}

#[test]
fn residency_is_the_most_blocks_live_at_once() {
    let report: Vec<u64> = vec![
        7, 0, 10, 20, //
        7, 0, 20, 30, //
        9, 0, 15, 25, //
        7, 0, 40, 50, //
    ];
    assert_eq!(analyze(&report), (2, 3, 2));
    let together: Vec<u64> = vec![1, 0, 0, 9, 2, 0, 0, 9, 3, 0, 1, 9];
    assert_eq!(analyze(&together), (3, 1, 3));
    assert_eq!(analyze(&[]), (0, 0, 0));
    assert_eq!(analyze(&[5, 0, 8, 8]), (1, 1, 0));
}

#[test]
fn a_bisection_ends_at_the_edge() {
    let mut search = Bisection::new(114_816);
    let mut probes = 0;
    while let Some(bytes) = search.probe() {
        search.answer(if bytes <= 113_664 { 2 } else { 1 });
        probes += 1;
    }
    assert_eq!((search.fits, search.over), (113_664, 113_665));
    assert!(probes <= 17);
    let mut none = Bisection::new(5);
    while none.probe().is_some() {
        none.answer(0);
    }
    assert_eq!((none.fits, none.over), (0, 1));
    assert_eq!(Bisection::new(0).probe(), None);
}

#[test]
fn delays_and_rules_share_a_word() {
    assert_eq!(encode(0, 1), 0);
    assert_eq!(encode(12, 0), 12_000);
    assert_eq!(encode(20, 1), (1 << 24) | 20_000);
    assert_eq!(encode(20_000, 0), 20_000_000);
    assert_eq!(encode(1, 257), (1 << 24) | 1000);
    assert_eq!(DELAYS, [0, 4, 8, 12, 16, 20]);
    assert_eq!(stagger_case(STAGGER_CASES - 1).name, "bwd gate_up dx (guard)");
    assert_eq!(stagger_case(3).mode, Mode::F32AccumulateT);
}

#[test]
fn only_linux_targets_have_their_own_directory() {
    assert_eq!(linux_architecture(b"x86_64-unknown-linux-gnu"), Some(6));
    assert_eq!(linux_architecture(b"aarch64-linux"), Some(7));
    assert_eq!(linux_architecture(b"linux"), None);
    assert_eq!(linux_architecture(b"linux-none"), None);
    assert_eq!(linux_architecture(b"x86_64-pc-windows-msvc"), None);
    assert_eq!(linux_architecture(b"x86_64-linu"), None);
}
