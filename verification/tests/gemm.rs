use oxide_train::gemm::cublaslt::{
    admitted, algorithm_attribute, checked, next_object, teardown, usable, Baseline, BaselineError,
    Form, OutElement, SessionObject,
};
use oxide_train::gemm::fp32::{
    launch_config, output_element, product_slots, stage_a, stage_b, GemmShape,
};
use oxide_train::gemm::host::{
    b_operand, create_bf16_pairs_tma_map, create_bf16_pairs_tma_map_prefix,
    create_bf16_pairs_tma_map_region, create_bf16_tma_map, region_end, tcgen05_launch_config,
    tcgen05_launch_config_over, CMapKey, CMapStep, F32Output, MapElement, Operand, Tcgen05Gemm,
    TmaLayout,
};
use oxide_train::gemm::mcast_probe::{
    charge, conclusion, copy_mask, copy_row, issues, matrix, received, row_value, verdict, yes_no,
    Conclusion, Received,
};
use oxide_train::gemm::narrow::{
    folds, origin, reduce_pass, role, slot, stage_load, DeferredDrain, Role,
};
use oxide_train::gemm::transpose_probe::{
    a_layout, b_layout, case_index, check, finding, transpose, Encoding, Finding, Source,
};

#[test]
fn persistent_grids_are_whole_clusters_up_to_the_device() {
    let small = tcgen05_launch_config(256, 256, 64);
    assert_eq!(small.grid_dim, (4, 1, 1));
    assert_eq!(small.block_dim, (192, 1, 1));
    assert_eq!(small.shared_mem_bytes, 114_816);
    assert_eq!(tcgen05_launch_config(8192, 8192, 8192).grid_dim.0, 296);
    assert_eq!(tcgen05_launch_config_over(8192, 8192, 8192, 37).grid_dim.0, 74);
    assert_eq!(tcgen05_launch_config(0, 256, 64).grid_dim.0, 0);
}

#[test]
fn boxes_depend_on_layout_and_operand() {
    assert_eq!(TmaLayout::KMajor.box_dimensions(Operand::A), [64, 128]);
    assert_eq!(TmaLayout::KMajor.box_dimensions(Operand::B), [64, 64]);
    assert_eq!(TmaLayout::MnMajor.box_dimensions(Operand::A), [64, 64]);
    assert_eq!(TmaLayout::MnMajor.box_dimensions(Operand::B), [64, 64]);
    assert_eq!(TmaLayout::MnMajor.transposed_flag(), 1);
    assert_eq!(TmaLayout::KMajor.transposed_flag(), 0);
}

#[test]
fn maps_carry_both_boxes_of_a_matrix() {
    let map = create_bf16_tma_map(4096, 512 * 256, 512, 256, TmaLayout::KMajor);
    assert_eq!(map.a.element, MapElement::Bf16);
    assert_eq!((map.a.width, map.a.height, map.a.row_bytes), (512, 256, 1024));
    assert_eq!((map.a.box_width, map.a.box_height, map.b.box_height), (64, 128, 64));
    let pairs = create_bf16_pairs_tma_map(4096, 256 * 256, 512, 256, TmaLayout::MnMajor);
    assert_eq!((pairs.a.width, pairs.a.box_height), (512, 64));
    let prefix = create_bf16_pairs_tma_map_prefix(4096, 999_999, 512, 256, TmaLayout::KMajor);
    assert_eq!(prefix.a, map.a);
    assert_eq!(b_operand(1000), 1128);
}

#[test]
fn a_region_starts_at_its_word() {
    let map =
        create_bf16_pairs_tma_map_region(4096, 1_000_000, 32, 128, 256, 512, TmaLayout::KMajor);
    assert_eq!((map.a.base, map.a.row_bytes, map.a.width), (4096 + 128, 1024, 128));
    assert_eq!(region_end(32, 128, 256, 512), Some(32 + (255 * 512 + 128) / 2));
    assert_eq!(region_end(usize::MAX, 128, 256, 512), None);
    assert_eq!(region_end(0, 2, usize::MAX, usize::MAX), None);
}

#[test]
fn a_map_is_encoded_once_and_keeps_its_slot() {
    let mut planner = Tcgen05Gemm::new();
    let key = CMapKey { base: 64, n: 512, m: 256 };
    let other = CMapKey { base: 128, n: 512, m: 256 };
    match planner.reduce_c_map(key) {
        CMapStep::Encode(map) => {
            assert_eq!(map.element, MapElement::F32);
            assert_eq!((map.base, map.width, map.height, map.row_bytes), (64, 512, 256, 2048));
        }
        CMapStep::Cached(_) => panic!("nothing is cached yet"),
    }
    assert_eq!(planner.admit_c_map(key), 0);
    assert_eq!(planner.reduce_c_map(key), CMapStep::Cached(0));
    assert!(matches!(planner.reduce_c_map(other), CMapStep::Encode(_)));
    assert_eq!(planner.admit_c_map(other), 1);
    assert_eq!(planner.reduce_c_map(key), CMapStep::Cached(0));
    assert_eq!(planner.reduce_c_map(other), CMapStep::Cached(1));
}

#[test]
fn launches_count_the_tiles_of_their_output() {
    let planner = Tcgen05Gemm::new();
    let bf16 = planner.store(512 * 768 / 2, 768, 128);
    assert_eq!((bf16.tiles_m, bf16.tiles_n, bf16.n, bf16.k), (2, 6, 768, 128));
    assert_eq!((bf16.mode, bf16.transposed), (0, 0));
    let folded = planner.accumulate_transposed(512 * 768 / 2, 768, 128);
    assert_eq!((folded.mode, folded.transposed), (1, 1));
    assert_eq!(planner.accumulate(512 * 768 / 2, 768, 128).mode, 1);

    let output = F32Output { address: 4096, len: 1024 * 768 };
    let store = planner.f32_store(&output, 768, 128);
    assert_eq!((store.tiles_m, store.tiles_n, store.output_offset), (4, 6, 0));
    assert_eq!(planner.f32_store_transposed(&output, 768, 128).transposed, 1);
    let at = planner.f32_store_at(&output, 256 * 768, 512 * 768, 768, 128);
    assert_eq!((at.tiles_m, at.tiles_n, at.output_offset), (2, 6, 256 * 768));
    let fold = planner.f32_accumulate_at(&output, 256 * 768, 512 * 768, 768, 128);
    assert_eq!(fold.c_map, CMapKey { base: 4096 + 4 * 256 * 768, n: 768, m: 512 });
    assert_eq!((fold.tiles_m, fold.tiles_n, fold.transposed), (2, 6, 0));
    assert_eq!(planner.f32_accumulate(&output, 768, 128).tiles_m, 4);
    assert_eq!(planner.f32_accumulate_transposed(&output, 768, 128).transposed, 1);
    let t = planner.f32_accumulate_transposed_at(&output, 256 * 768, 512 * 768, 768, 128);
    assert_eq!((t.transposed, t.c_map), (1, fold.c_map));
}

#[test]
fn register_tiles_multiply_every_pair_once() {
    let shape = GemmShape { m: 73, n: 91, k: 47 };
    for (a_transposed, b_transposed) in [(false, false), (false, true), (true, false)] {
        let (block_row, block_col) = (64, 64);
        let mut a_tile = vec![None; 4096];
        let mut b_tile = vec![None; 4096];
        for local in 0..4096 {
            let a = stage_a(&shape, a_transposed, block_row, 0, local);
            let b = stage_b(&shape, b_transposed, block_col, 0, local);
            assert!(a_tile[a.slot].is_none() && b_tile[b.slot].is_none());
            a_tile[a.slot] = Some(a.source);
            b_tile[b.slot] = Some(b.source);
        }
        for tid in 0..256 {
            for row in 0..4 {
                for col in 0..4 {
                    let target = output_element(&shape, block_row, block_col, tid, row, col);
                    let Some(element) = target else { continue };
                    let (i, j) = (element / 91, element % 91);
                    for inner in 0..47 {
                        let (a_slot, b_slot) = product_slots(tid, row, col, inner);
                        let a = if a_transposed { inner * 73 + i } else { i * 47 + inner };
                        let b = if b_transposed { j * 47 + inner } else { inner * 91 + j };
                        assert_eq!(a_tile[a_slot], Some(Some(a)));
                        assert_eq!(b_tile[b_slot], Some(Some(b)));
                    }
                }
            }
        }
    }
    assert_eq!(launch_config(73, 91).grid_dim, (2, 2, 1));
    assert_eq!(launch_config(73, 91).block_dim, (256, 1, 1));
}

#[test]
fn warps_take_their_roles() {
    assert_eq!(role(4, 0, 1), Role::Produce);
    assert_eq!(role(4, 1, 0), Role::Idle);
    assert_eq!(role(5, 0, 0), Role::Multiply);
    assert_eq!(role(5, 0, 1), Role::Idle);
    assert_eq!(role(2, 17, 1), Role::Drain);
}

#[test]
fn a_stage_loads_its_rank_of_both_operands() {
    let load = stage_load(3, 5, 1, 2, false);
    assert_eq!((load.a_x, load.a_y), (128, 3 * 256 + 128));
    assert_eq!((load.b_x, load.b_y), (128, 5 * 128 + 64));
    let turned = stage_load(3, 5, 1, 2, true);
    assert_eq!((turned.a_x, turned.a_y), (load.a_y, load.a_x));
    assert_eq!((turned.b_x, turned.b_y), (load.b_y, load.b_x));
    assert_eq!(origin(3, 5, 1, 2), (3 * 256 + 128 + 64, 640));
    assert_eq!((slot(0), slot(1), slot(2)), (0, 128, 0));
    assert_eq!([0, 1, 2, 3].map(reduce_pass), [(0, 0), (0, 64), (16, 0), (16, 64)]);
    assert!(folds(1) && folds(3) && !folds(2));
}

#[test]
fn a_deferred_drain_drains_every_item_from_its_own_slot() {
    let mut state = DeferredDrain::new();
    let mut multiplied = Vec::new();
    let mut drained = Vec::new();
    for item in [4u32, 9, 11, 20] {
        let step = state.work(item);
        multiplied.push((item, step.multiply_column));
        if let Some(drain) = step.drain {
            drained.push((drain.item, drain.column));
        }
    }
    let last = state.drain_last().unwrap();
    drained.push((last.item, last.column));
    assert_eq!(drained, multiplied);
    assert!(DeferredDrain::new().drain_last().is_none());
}

#[test]
fn multicast_charges_follow_the_reading() {
    let charges = |variant: u32| [0u32, 1, 2, 3].map(|rank| charge(variant, rank) / 16_384);
    assert_eq!(charges(0), [1, 0, 1, 0]);
    assert_eq!(charges(1), [1, 0, 0, 0]);
    assert_eq!(charges(2), [2, 0, 0, 0]);
    assert_eq!(charges(3), [1, 0, 1, 0]);
    assert_eq!(charges(4), [2, 0, 2, 0]);
    assert_eq!(charges(5), [0, 0, 0, 0]);
    assert_eq!([0u32, 1, 2, 3].map(copy_row), [0, 128, 256, 384]);
    assert_eq!((copy_mask(0), copy_mask(1)), (0b0101, 0b1010));
    assert_eq!([0u32, 1, 2, 3].map(|rank| issues(0, rank)), [true, false, false, false]);
    assert_eq!([0u32, 1, 2, 3].map(|rank| issues(3, rank)), [false, true, false, false]);
    assert_eq!([0u32, 1, 2, 3].map(|rank| issues(4, rank)), [true, true, false, false]);
    assert_eq!(yes_no(true), "yes");
    assert_eq!(yes_no(false), "no");
    assert_eq!(row_value(1), 0x3f80);
    assert_eq!(row_value(200), 0x4348);
    let elements = matrix();
    assert_eq!(elements.len(), 2 * 128 * 64);
    assert_eq!(elements[64], 0x3f80);
    assert_eq!(elements[63], 0);
}

#[test]
fn multicast_reports_are_judged_whole() {
    assert_eq!(received(0, 0), Received::Nothing);
    assert_eq!(received(1, 2), Received::Unknown);
    assert_eq!(received(row_value(0) as u64, row_value(127) as u64), Received::Half(0));
    assert_eq!(received(row_value(128) as u64, row_value(255) as u64), Received::Half(1));
    let mut report = vec![0u64; 120];
    assert!(verdict(&report, 1));
    report[6 * (4 + 2) + 4] = 16_384;
    assert!(!verdict(&report, 1));
    assert!(verdict(&report, 2));
    report[6 * (4 + 2) + 1] = 1;
    assert!(verdict(&report, 1));
    assert_eq!(conclusion(&[false, false, false, true, true]), Conclusion::PairLeader);
    assert_eq!(conclusion(&[true, false, false, true, false]), Conclusion::PerDestination);
    assert_eq!(conclusion(&[false, false, false, false, true]), Conclusion::SingleBlock);
}

#[test]
fn the_library_is_asked_for_the_row_major_product() {
    let store = Baseline::new(256, 512, 64);
    assert_eq!((store.trans_a, store.trans_b), (1, 0));
    assert_eq!((store.a.rows, store.a.columns, store.a.leading_dimension), (64, 512, 64));
    assert_eq!((store.b.rows, store.b.columns, store.b.leading_dimension), (64, 256, 64));
    assert_eq!((store.d.rows, store.d.columns, store.d.element), (512, 256, 14));
    assert!(!store.accumulates);
    let fold = Baseline::with_form(256, 512, 64, Form::AccumulateTransposed, OutElement::F32);
    assert_eq!((fold.trans_a, fold.trans_b), (0, 1));
    assert_eq!((fold.a.rows, fold.a.columns), (512, 64));
    assert_eq!((fold.b.rows, fold.b.columns), (256, 64));
    assert_eq!(fold.d.element, 0);
    assert!(fold.accumulates);
}

#[test]
fn library_failures_are_told_apart() {
    assert_eq!(checked(0), Ok(()));
    assert_eq!(checked(7), Err(BaselineError::Status(7)));
    assert_eq!(usable(3, 1, 0), Err(BaselineError::Status(3)));
    assert_eq!(usable(0, 0, 0), Err(BaselineError::NoAlgorithm));
    assert_eq!(usable(0, 1, 5), Err(BaselineError::Status(5)));
    assert_eq!(usable(0, 1, 0), Ok(()));
}

#[test]
fn a_session_is_set_up_in_order() {
    let mut held = Vec::new();
    while let Some(object) = next_object(held.len()) {
        assert_eq!(admitted(held.len(), 14), Err(BaselineError::Status(14)));
        assert_eq!(admitted(held.len(), 0), Ok(held.len() + 1));
        held.push(object);
        let backwards: Vec<SessionObject> = held.iter().rev().copied().collect();
        assert_eq!(teardown(held.len()), backwards);
    }
    assert_eq!(
        held,
        vec![
            SessionObject::Handle,
            SessionObject::Desc,
            SessionObject::A,
            SessionObject::B,
            SessionObject::D,
            SessionObject::Preference,
        ]
    );
}

#[test]
fn a_session_is_torn_down_backwards() {
    assert!(teardown(0).is_empty());
    assert_eq!(
        teardown(3),
        vec![SessionObject::A, SessionObject::Desc, SessionObject::Handle]
    );
    assert_eq!(teardown(6)[0], SessionObject::Preference);
    let cluster = algorithm_attribute(7);
    assert_eq!((cluster.name, cluster.code, cluster.width), ("cluster", 8, 2));
    assert_eq!(algorithm_attribute(4).code, 4);
    assert_eq!(algorithm_attribute(5).code, 6);
}

#[test]
fn structured_operands_multiply_to_their_table() {
    for encoding in [Encoding::Outer, Encoding::AWalk, Encoding::BWalk] {
        let (a, b) = encoding.operands().unwrap();
        assert_eq!((a.len(), b.len()), (128 * 64, 64 * 64));
        let wide = |bits: u16| f32::from_bits((bits as u32) << 16);
        for m in 0..128usize {
            for n in 0..64usize {
                let sum: f32 = (0..64).map(|k| wide(a[m * 64 + k]) * wide(b[n * 64 + k])).sum();
                let read = match encoding {
                    Encoding::Outer => (m + 1) * (n + 1),
                    Encoding::AWalk => m % 64 + 1,
                    _ => n + 1,
                };
                assert_eq!(sum, read as f32);
            }
        }
        assert_eq!(encoding.tolerance(), (0, 0));
    }
    assert!(Encoding::Random.operands().is_none());
    assert_eq!(Encoding::Random.tolerance(), (0.02f32.to_bits(), 0.01f32.to_bits()));
    assert_eq!(Encoding::AWalk.name(), "a_walk");
}

#[test]
fn transposing_twice_gives_the_matrix_back() {
    let source: Vec<u16> = (0..15).collect();
    let turned = transpose(&source, 3, 5);
    assert_eq!(&turned[..4], &[0, 5, 10, 1]);
    assert_eq!(transpose(&turned, 5, 3), source);
    assert_eq!(transpose(&source, 2, 3), vec![0, 3, 1, 4, 2, 5]);
    assert!(transpose(&source, 0, 9).is_empty());
}

#[test]
fn descriptors_hold_their_fields() {
    let (layout, rows) = a_layout(2);
    assert_eq!((layout.name, rows), ("a_mn_split", 128));
    let word = layout.word();
    assert_eq!((word >> 16) & 0x3fff, 8192 / 16);
    assert_eq!((word >> 32) & 0x3fff, 1024 / 16);
    assert_eq!((word >> 46) & 1, 1);
    assert_eq!(word >> 61, 2);
    assert_eq!(word & 0xffff, 0);
    assert_eq!(a_layout(1).0.word() >> 61, 0);
    assert!(b_layout(1).transposed);
    assert_eq!(Source::BMnMajor.index(), 4);
    assert_eq!(Source::AMnWide.map().box_width, 128);
    assert!(!Source::AMnWide.map().swizzled);
}

#[test]
fn a_check_finds_the_largest_error_and_every_failure() {
    let mut errors = vec![0u32; 64];
    errors[3] = 0.5f32.to_bits();
    errors[9] = 0.25f32.to_bits();
    errors[10] = f32::NAN.to_bits();
    let tolerances = vec![0.3f32.to_bits(); 64];
    let comparison = check(1, &errors, &tolerances);
    assert_eq!(comparison.max_abs, 0.5f32.to_bits());
    assert_eq!(comparison.failures.samples(), &vec![3usize]);
    assert_eq!(comparison.failures.wrong(), 1);
}

#[test]
fn a_sweep_is_read_only_if_its_control_passed() {
    let mut passed = vec![false; 10];
    assert_eq!(finding(&passed), Finding::ControlFailed);
    passed[0] = true;
    assert_eq!(finding(&passed), Finding::NoGeometry);
    passed[case_index(2, 1)] = true;
    passed[case_index(3, 1)] = true;
    assert_eq!(finding(&passed), Finding::Geometry(2));
    passed[case_index(4, 1)] = true;
    assert_eq!(finding(&passed), Finding::Geometry(2));
}
