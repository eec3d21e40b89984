use oxide_train::flash::checks::{check_swizzle, correction_rate, observed_chunks, swizzled_word};
use oxide_train::flash::host::{
    cadence_config, correction_count_len, create_flash_head_tma_map,
    create_flash_row_major_tma_map, flash_backward_kv_config, flash_backward_q_config,
    flash_forward_config, flash_forward_ctas_per_sm, flash_work_items, swizzle_probe_config,
    transpose_probe_config,
};
use oxide_train::flash::probe::{
    band_step, cadence_counters, cadence_variant, live_blocks, publisher, tile_visits, Phase,
    Publisher, Sums, COUNTERS, DRAINWAIT, EPI, FEED, GAP, GMMA, ISSUE, ITEMS, PASS, SMMA, SPAN,
    SSTORE, TMA, TREAD, VISITS,
};
use oxide_train::flash::rows::{
    block_runs, dot_config, fold_partner, width_is_supported, RowShape,
};
use oxide_train::flash::schedule::{
    band_origin, buffer_column, correction, correction_slot, AttentionGrid, Correction,
    ForwardStream, QUERIES, TILE,
};
use oxide_train::flash::staging::{stage_heads, stage_heads_config, staged_value, StageShape};
use oxide_train::flash::stream::{backward_depths, forward_depths, Refill};
use oxide_train::flash::tiled::{
    backward_keeps, backward_kv_tiling, backward_q_tiling, forward_keeps, forward_tiling,
    key_tile_count, output_element, query_tile_range, tile_block, tiled_backward_kv_config,
    tiled_backward_q_config, tiled_forward_config, PackedShape, TileBlock, Tiling,
};

fn grid() -> AttentionGrid {
    AttentionGrid { sequence_length: 512, heads: 3, batches: 2 }
}

#[test]
fn work_items_count_query_blocks_of_every_plane() {
    assert_eq!(flash_work_items(2, 512, 3), 24);
    assert_eq!(correction_count_len(2, 512, 3), 24);
    assert_eq!(grid().item_count(), 24);
}

#[test]
fn query_items_decode_longest_first_and_only_once() {
    let mut seen = Vec::new();
    let mut last = u32::MAX;
    for item in 0..grid().item_count() {
        let decoded = grid().query_item(item);
        assert!(decoded.key_tiles <= last);
        last = decoded.key_tiles;
        assert_eq!(decoded.query_base, QUERIES * decoded.query_block);
        assert_eq!(decoded.key_tiles, 2 * decoded.query_block + 2);
        assert!(!seen.contains(&(decoded.query_block, decoded.batch, decoded.head)));
        seen.push((decoded.query_block, decoded.batch, decoded.head));
    }
    let first = grid().query_item(0);
    assert_eq!((first.query_block, first.batch, first.head), (3, 0, 0));
    assert_eq!(first.second_box(), first.query_base + TILE);
    assert_eq!(first.key_base(5), 320);
    assert!(!first.masked(5));
    assert!(first.masked(6));
    assert!(first.masked(7));
}

#[test]
fn key_items_decode_longest_first_and_only_once() {
    let mut seen = Vec::new();
    let mut last = u32::MAX;
    for item in 0..grid().item_count() {
        let decoded = grid().key_item(item);
        assert!(decoded.steps <= last);
        last = decoded.steps;
        assert!(!seen.contains(&(decoded.key_block, decoded.batch, decoded.head)));
        seen.push((decoded.key_block, decoded.batch, decoded.head));
    }
    let first = grid().key_item(0);
    assert_eq!((first.key_block, first.steps), (0, 8));
    assert_eq!(first.query_base(3), first.key_base + 192);
    assert_eq!(first.second_box(), first.key_base + 64);
    assert!(first.masked(1));
    assert!(!first.masked(2));
}

#[test]
fn both_backward_forms_visit_as_many_tiles() {
    let mut queries = 0u32;
    let mut keys = 0u32;
    for item in 0..grid().item_count() {
        queries += grid().query_item(item).key_tiles;
        keys += grid().key_item(item).steps;
    }
    assert_eq!(queries, keys);
    assert_eq!(queries as usize, tile_visits(2, 512, 3));
    assert_eq!(tile_visits(2, 512, 3), 4 * 5 * 2 * 3);
}

#[test]
fn every_output_row_has_one_writer() {
    let mut rows = vec![0u32; 1024];
    for item in 0..grid().item_count() {
        let decoded = grid().query_item(item);
        if decoded.head != 1 {
            continue;
        }
        for warp in 0..4 {
            let first = band_origin(&grid(), decoded.batch, decoded.query_base, warp) as usize;
            for row in first..first + 32 {
                rows[row] += 1;
            }
        }
    }
    assert!(rows.iter().all(|&writers| writers == 1));
}

#[test]
fn correction_slots_are_distinct() {
    let mut slots = Vec::new();
    for item in 0..grid().item_count() {
        slots.push(correction_slot(&grid(), &grid().query_item(item)));
    }
    slots.sort_unstable();
    assert_eq!(slots, (0..24).collect::<Vec<u32>>());
}

#[test]
fn a_correction_waits_for_the_tile_before() {
    assert_eq!(correction(0, false), Correction::Keep);
    assert_eq!(correction(0, true), Correction::Reference);
    assert_eq!(correction(1, true), Correction::Rescale { after: 0 });
    assert_eq!(correction(9, true), Correction::Rescale { after: 8 });
}

#[test]
fn score_buffers_alternate() {
    assert_eq!(buffer_column(0, 0), 0);
    assert_eq!(buffer_column(0, 1), 64);
    assert_eq!(buffer_column(0, 2), 0);
    assert_eq!(buffer_column(128, 3), 192);
}

#[test]
fn a_stream_loads_and_scores_every_tile_once() {
    for depths in [forward_depths(), backward_depths()] {
        for tiles in 1..12u32 {
            let mut loaded: Vec<u32> = (0..depths.opening_loads(tiles)).collect();
            let mut scored = vec![0u32];
            for tile in 0..tiles {
                let step = depths.issue_step(tile, tiles);
                if let Some(Refill { tile: refill, after }) = step.refill {
                    assert_eq!(after + 1, tile);
                    loaded.push(refill);
                }
                if let Some(next) = step.score {
                    scored.push(next);
                }
                assert_eq!(step.accumulates, tile != 0);
            }
            assert_eq!(loaded, (0..tiles).collect::<Vec<u32>>());
            assert_eq!(scored, (0..tiles).collect::<Vec<u32>>());
        }
    }
}

#[test]
fn an_operand_buffer_is_reused_only_after_its_last_reader() {
    assert_eq!(forward_depths().recycled(0), None);
    assert_eq!(forward_depths().recycled(1), Some(0));
    assert_eq!(backward_depths().recycled(1), None);
    assert_eq!(backward_depths().recycled(2), Some(0));
}

#[test]
fn backward_launches_are_capped_by_blocks() {
    let config = flash_backward_q_config(2, 512, 3, 148, 200_000);
    assert_eq!(config.grid_dim, (24, 1, 1));
    assert_eq!(config.block_dim, (160, 1, 1));
    assert_eq!(config.shared_mem_bytes, 200_000);
    assert_eq!(flash_backward_kv_config(2, 512, 3, 5, 1).grid_dim.0, 5);
    assert_eq!(flash_backward_kv_config(2, 512, 3, 0, 1).grid_dim.0, 1);
}

#[test]
fn forward_launches_use_the_blocks_that_fit() {
    assert_eq!(flash_forward_ctas_per_sm(116_736), 2);
    assert_eq!(flash_forward_ctas_per_sm(116_737), 1);
    assert_eq!(flash_forward_ctas_per_sm(1), 2);
    let config = flash_forward_config(2, 512, 3, 4, 100_000);
    assert_eq!(config.grid_dim, (8, 1, 1));
    assert_eq!(config.block_dim, (128, 1, 1));
    assert_eq!(flash_forward_config(2, 512, 3, 148, 100_000).grid_dim.0, 24);
    assert_eq!(cadence_config(7).block_dim, (32, 1, 1));
    assert_eq!(transpose_probe_config().shared_mem_bytes, 49_152);
    assert_eq!(swizzle_probe_config().block_dim, (64, 1, 1));
}

#[test]
fn maps_describe_head_panels() {
    let staged = create_flash_head_tma_map(6 * 256 * 64, 256, 6);
    assert_eq!((staged.columns, staged.rows, staged.planes), (128, 256, 6));
    assert_eq!((staged.row_stride, staged.plane_stride), (128, 256 * 128));
    let native = create_flash_row_major_tma_map(512 * 3 * 64, 512, 3);
    assert_eq!((native.rows, native.planes), (512, 3));
    assert_eq!((native.row_stride, native.plane_stride), (384, 128));
}

#[test]
fn head_widths_are_powers_of_two() {
    for width in 0..300usize {
        assert_eq!(width_is_supported(width), width.is_power_of_two() && width <= 256);
    }
    assert!(block_runs(64, 64));
    assert!(!block_runs(64, 32));
    assert!(!block_runs(48, 48));
    let config = dot_config(10, 3, 64);
    assert_eq!((config.grid_dim, config.block_dim), ((30, 1, 1), (64, 1, 1)));
}

#[test]
fn a_reduction_gathers_every_lane() {
    let mut lanes: Vec<u64> = (0..64).map(|lane| 1 << lane).collect();
    let mut stride = 32;
    while stride > 0 {
        let before = lanes.clone();
        for lane in 0..64 {
            if let Some(partner) = fold_partner(lane, stride) {
                lanes[lane] = before[lane] + before[partner];
            }
        }
        stride /= 2;
    }
    assert_eq!(lanes[0], u64::MAX);
}

#[test]
fn row_blocks_decode_and_attend_causally() {
    let shape = RowShape { batches: 2, sequence_length: 5, heads: 3, head_dim: 4 };
    let block = shape.row_block(7 * 3 + 2);
    assert_eq!((block.row, block.head, block.position, block.sequence_start), (7, 2, 2, 5));
    assert_eq!(block.base, shape.base(7, 2));
    assert_eq!(block.base, (7 * 3 + 2) * 4);
    assert_eq!(block.attended_keys(), (5, 8));
    assert_eq!(block.attending_queries(5), (7, 10));
    assert_eq!(shape.fused_element(4, 2, 3), shape.base(7, 1) + 3);
    assert_eq!(shape.fused_keys(0), (0, 1));
    assert_eq!(shape.fused_keys(4), (0, 5));
}

#[test]
fn tilings_cover_their_tile_once() {
    for tiling in [forward_tiling(), backward_q_tiling(), backward_kv_tiling()] {
        let threads = (tiling.queries / tiling.tm) * (tiling.keys / tiling.tn);
        let mut cells = vec![0u32; tiling.queries * tiling.keys];
        for tid in 0..threads {
            for i in 0..tiling.tm {
                for j in 0..tiling.tn {
                    let (query, key) = tiling.score_cell(tid, i, j);
                    cells[query * tiling.keys + key] += 1;
                }
            }
        }
        assert!(cells.iter().all(|&count| count == 1));
    }
    let (row, column) = forward_tiling().fragment(5);
    assert_eq!((row, column), (1, 1));
}

fn writers(tiling: Tiling, shape: PackedShape) -> Vec<u32> {
    let owned = if tiling.owns_keys { tiling.keys } else { tiling.queries };
    let threads = (tiling.queries / tiling.tm) * (tiling.keys / tiling.tn);
    let mut writers = vec![0u32; shape.sequences * shape.sequence_length * shape.heads * 128];
    for x in 0..shape.sequence_length.div_ceil(owned) {
        for head in 0..shape.heads {
            for sequence in 0..shape.sequences {
                let block = tile_block(&tiling, &shape, (x, head, sequence)).unwrap();
                for tid in 0..threads {
                    for i in 0..4 {
                        for d in 0..32 {
                            if let Some(element) =
                                output_element(&tiling, &shape, &block, tid, i, d)
                            {
                                writers[element] += 1;
                            }
                        }
                    }
                }
            }
        }
    }
    writers
}

#[test]
fn every_gradient_element_is_written_once() {
    let shape = PackedShape { sequences: 2, sequence_length: 37, heads: 3 };
    for tiling in [forward_tiling(), backward_q_tiling(), backward_kv_tiling()] {
        assert!(writers(tiling, shape).iter().all(|&count| count == 1));
    }
}

#[test]
fn every_row_statistic_is_written_once() {
    let shape = PackedShape { sequences: 2, sequence_length: 37, heads: 3 };
    let tiling = forward_tiling();
    let mut counts = vec![0u32; 2 * 37 * 3];
    for position in 0..37usize.div_ceil(tiling.queries) {
        for head in 0..3 {
            for sequence in 0..2 {
                let block = tile_block(&tiling, &shape, (position, head, sequence)).unwrap();
                for index in 0..tiling.queries {
                    if let Some(at) = shape.staged_statistic(&block, block.start, index) {
                        counts[at] += 1;
                    }
                }
            }
        }
    }
    assert!(counts.iter().all(|&count| count == 1));
}

#[test]
fn packed_elements_are_addressed_by_row_then_head() {
    let shape = PackedShape { sequences: 2, sequence_length: 37, heads: 3 };
    assert_eq!(shape.statistic_index(1, 2, 1), (37 + 2) * 3 + 1);
    assert_eq!(shape.element_index(1, 2, 1, 9), ((37 + 2) * 3 + 1) * 128 + 9);
    let block = TileBlock { sequence: 1, head: 1, start: 32 };
    assert_eq!(shape.staged(&block, 32, 4 * 128 + 7), Some(shape.element_index(1, 36, 1, 7)));
    assert_eq!(shape.staged(&block, 32, 5 * 128), None);
    assert_eq!(shape.staged_statistic(&block, 32, 4), Some(shape.statistic_index(1, 36, 1)));
    assert_eq!(shape.staged_statistic(&block, 32, 5), None);
    assert!(tile_block(&forward_tiling(), &shape, (2, 0, 0)).is_none());
}

#[test]
fn tiles_without_an_attended_pair_are_skipped() {
    let tiling = forward_tiling();
    assert_eq!(key_tile_count(&tiling, 0, 37), 2);
    assert_eq!(key_tile_count(&tiling, 32, 37), 3);
    assert_eq!(query_tile_range(&backward_kv_tiling(), 16, 37), (1, 3));
    assert!(forward_keeps(5, 5, 37));
    assert!(!forward_keeps(5, 6, 37));
    assert!(!forward_keeps(40, 37, 37));
    assert!(forward_keeps(40, 36, 37));
    assert!(!backward_keeps(40, 36, 37));
    assert!(backward_keeps(36, 36, 37));
}

#[test]
fn tiled_launches_have_a_block_per_tile_head_and_sequence() {
    assert_eq!(tiled_forward_config(2, 37, 3, 128).grid_dim, (2, 3, 2));
    assert_eq!(tiled_forward_config(2, 37, 3, 128).block_dim, (32, 1, 1));
    assert_eq!(tiled_backward_q_config(2, 37, 3, 128).grid_dim, (3, 3, 2));
    assert_eq!(tiled_backward_kv_config(2, 37, 3, 128).block_dim, (16, 1, 1));
}

#[test]
fn staging_permutes_rows_into_head_panels() {
    let shape = StageShape { batches: 2, sequence_length: 4, heads: 3 };
    let source: Vec<u32> = (0..2 * 4 * 3 * 128).map(|i| ((i as u32) & 0x7fff) << 16).collect();
    let staged = stage_heads(&source, &shape);
    assert_eq!(staged.len(), source.len() / 2);
    for batch in 0..2 {
        for token in 0..4 {
            for head in 0..3 {
                for feature in 0..128 {
                    let from = ((batch * 4 + token) * 3 + head) * 128 + feature;
                    let value = staged_value(&staged, 4, batch * 3 + head, token, feature);
                    assert_eq!(value as u32, source[from] >> 16);
                }
            }
        }
    }
    let word = shape.staged_word(64 * (4 * 5 + 2) + 9);
    assert_eq!((word.plane, word.token, word.pair), (5, 2, 9));
    assert_eq!(stage_heads_config(8, 3, 128).grid_dim.0, 6);
}

#[test]
fn staging_reads_no_further_than_its_shape() {
    for (batches, sequence_length, heads) in [(0, 4, 3), (2, 0, 3), (2, 4, 0)] {
        let shape = StageShape { batches, sequence_length, heads };
        assert!(stage_heads(&[], &shape).is_empty());
        assert!(stage_heads(&[0x3f80_0000; 5], &shape).is_empty());
    }
    let shape = StageShape { batches: 1, sequence_length: 2, heads: 1 };
    let mut source = vec![0x3f80_0000u32; 256];
    let exact = stage_heads(&source, &shape);
    assert_eq!(exact, vec![0x3f80_3f80u32; 128]);
    source.extend([0x4000_0000; 7]);
    assert_eq!(stage_heads(&source, &shape), exact);
}

#[test]
fn a_swizzled_dump_passes_and_a_plain_one_does_not() {
    let mut dump = vec![0u32; 2048];
    for place in 0..2048 {
        let word = swizzled_word(place, 0);
        dump[word.landing] = word.source as u32;
    }
    assert_eq!(check_swizzle(&dump, 0).wrong(), 0);
    let plain: Vec<u32> = (0..2048).map(|place| swizzled_word(place, 0).source as u32).collect();
    let tally = check_swizzle(&plain, 0);
    assert!(tally.wrong() > 0);
    assert_eq!(tally.samples().len(), 24);
}

#[test]
fn the_swizzle_lands_every_word_once() {
    for phase in [0usize, 3, 7] {
        let mut landed = vec![0u32; 2048];
        for place in 0..2048 {
            landed[swizzled_word(place, phase).landing] += 1;
        }
        assert!(landed.iter().all(|&count| count == 1));
    }
}

#[test]
fn observed_chunks_read_one_row() {
    let mut dump = vec![0u32; 2048];
    for chunk in 0..8 {
        dump[32 * 3 + 4 * chunk] = 64 + 4 * (7 - chunk as u32);
    }
    assert_eq!(observed_chunks(&dump, 3), vec![7, 6, 5, 4, 3, 2, 1, 0]);
}

#[test]
fn correction_rates_are_over_the_tiles_after_the_first() {
    let rate = correction_rate(&[3, 0, 4], 2, 512, 3);
    assert_eq!(rate.total, 7);
    assert_eq!(rate.eligible, 6 * (20 - 4));
}

#[test]
fn counters_charge_phases_and_items() {
    let mut sums = Sums::zero();
    sums.open_item(10);
    sums.charge(Phase::Pass, 10, 15);
    sums.visit();
    sums.close_item(20);
    sums.open_item(26);
    assert_eq!((sums.items, sums.visits, sums.pass, sums.gap), (1, 1, 5, 6));
    sums.close_item(30);
    assert_eq!(sums.items, 2);
    let column = sums.pass_column(99);
    let read = |slot: usize| column.iter().find(|entry| entry.0 == slot).map(|entry| entry.1);
    assert_eq!(read(ITEMS), Some(2));
    assert_eq!(read(SPAN), Some(99 / 2));
    assert_eq!(read(VISITS), Some(1));
    assert_eq!(read(PASS), Some(5));
    assert_eq!(read(GAP), Some(6 / 2));
}

#[test]
fn the_issue_split_sums_to_the_issue_time() {
    let mut sums = Sums::zero();
    sums.charge(Phase::Feed, u64::MAX - 1, 4);
    sums.charge(Phase::Tma, 10, 20);
    sums.charge(Phase::ScoreMultiply, 20, 26);
    sums.charge(Phase::GradientMultiply, 30, 38);
    sums.visit();
    sums.visit();
    let column = sums.issue_column();
    let read = |slot: usize| column.iter().find(|entry| entry.0 == slot).map(|entry| entry.1);
    assert_eq!(read(FEED), Some(6 / 2));
    assert_eq!(read(ISSUE), Some(24 / 2));
    assert_eq!((read(TMA), read(SMMA), read(GMMA)), (Some(5), Some(3), Some(4)));
    assert_eq!(read(VISITS), None);
}

#[test]
fn the_published_split_loses_no_tick_to_rounding() {
    let mut sums = Sums::zero();
    sums.charge(Phase::Tma, 0, 1);
    sums.charge(Phase::ScoreMultiply, 1, 2);
    sums.charge(Phase::GradientMultiply, 2, 3);
    sums.visit();
    sums.visit();
    let column = sums.issue_column();
    let read = |slot: usize| column.iter().find(|entry| entry.0 == slot).map(|entry| entry.1);
    assert_eq!(read(ISSUE), Some(1));
    assert_eq!((read(TMA), read(SMMA), read(GMMA)), (Some(0), Some(0), Some(1)));
    // Issue time that nothing is said about leaves the parts their own means.
    sums.charge(Phase::Issue, 0, 9);
    assert_eq!(sums.issue_column()[2], (ISSUE, 6));
    assert_eq!(sums.issue_column()[6], (GMMA, 0));
}

#[test]
fn the_parts_of_the_pass_fit_into_it() {
    let mut sums = Sums::zero();
    sums.charge(Phase::TensorRead, 0, 5);
    sums.charge(Phase::SharedStore, 5, 8);
    sums.charge(Phase::Pass, 0, 8);
    sums.charge(Phase::DrainWait, 8, 11);
    sums.charge(Phase::Epilogue, 8, 13);
    sums.visit();
    sums.visit();
    sums.visit();
    sums.close_item(13);
    let column = sums.pass_column(13);
    let read = |slot: usize| column.iter().find(|entry| entry.0 == slot).unwrap().1;
    assert_eq!((read(TREAD), read(SSTORE), read(PASS)), (1, 1, 2));
    assert_eq!((read(DRAINWAIT), read(EPI)), (3, 5));
    assert_eq!((read(VISITS), read(ITEMS)), (3, 1));
}

#[test]
fn an_item_rescales_at_most_once_a_tile_but_the_first() {
    let grid = AttentionGrid { sequence_length: 384, heads: 3, batches: 2 };
    for item in 0..grid.item_count() {
        let item = grid.query_item(item);
        let rescales = (0..item.key_tiles)
            .filter(|&tile| matches!(correction(tile, true), Correction::Rescale { .. }))
            .count() as u32;
        assert_eq!(rescales, 2 * item.query_block + 1);
        assert_eq!(item.head_column(), 128 * item.head);
    }
    assert_eq!(grid.key_item(5).head_column(), 128 * 2);
}

#[test]
fn a_forward_item_writes_its_block_and_counts_its_rescales() {
    let grid = AttentionGrid { sequence_length: 384, heads: 3, batches: 2 };
    let stream = ForwardStream { grid };
    let mut elements = vec![0u32; 768 * 384];
    for number in 0..grid.item_count() {
        let mut work = stream.work(number);
        let item = grid.query_item(number);
        assert_eq!(work.item, item);
        assert_eq!(work.first_column, item.head_column());
        assert_eq!(work.correction_word, correction_slot(&grid, &item));
        assert_eq!((work.tile, work.corrections), (0, 0));
        for warp in 0..4 {
            assert_eq!(
                work.band(warp),
                band_origin(&grid, item.batch, item.query_base, warp)
            );
        }
        for row in work.first_row..work.first_row + 128 {
            for column in work.first_column..work.first_column + 128 {
                elements[(row * 384 + column) as usize] += 1;
            }
        }
        for tile in 0..item.key_tiles {
            let exceeded = tile % 3 != 1;
            assert_eq!(work.vote(exceeded), correction(tile, exceeded));
        }
        let kept = (0..item.key_tiles).filter(|tile| tile % 3 == 1).count() as u32;
        assert_eq!(work.corrections, item.key_tiles - 1 - kept);
        assert_eq!(work.tile, item.key_tiles);
    }
    assert!(elements.iter().all(|&writers| writers == 1));
    let first = stream.work(0);
    assert_eq!((first.first_row, first.first_column, first.correction_word), (256, 0, 2));
    let last = stream.work(17);
    assert_eq!((last.first_row, last.first_column, last.correction_word), (384, 256, 15));
}

#[test]
fn an_empty_grid_has_no_items() {
    for (sequence_length, heads, batches) in [(256, 3, 0), (256, 0, 2), (0, 3, 2)] {
        assert_eq!(AttentionGrid { sequence_length, heads, batches }.item_count(), 0);
    }
}

#[test]
fn a_forward_launch_writes_every_word_once() {
    let grid = AttentionGrid { sequence_length: 256, heads: 3, batches: 2 };
    let rows = 512usize;
    let mut statistics = vec![0u32; rows * 3];
    let mut corrections = vec![0u32; grid.item_count() as usize];
    let mut visits = 0;
    for number in 0..grid.item_count() {
        let item = grid.query_item(number);
        visits += item.key_tiles;
        assert_eq!(item.key_tiles, grid.key_item(number).steps);
        corrections[correction_slot(&grid, &item) as usize] += 1;
        for warp in 0..4 {
            let row = band_origin(&grid, item.batch, item.query_base, warp);
            for offset in 0..32 {
                statistics[((row + offset) * 3 + item.head) as usize] += 1;
            }
        }
    }
    assert!(statistics.iter().all(|&writers| writers == 1));
    assert!(corrections.iter().all(|&writers| writers == 1));
    assert_eq!(visits as usize, tile_visits(2, 256, 3));
}

#[test]
fn only_two_lanes_publish() {
    let mut sums = Sums::zero();
    assert_eq!(publisher(&sums, 0, 0), None);
    sums.close_item(1);
    assert_eq!(publisher(&sums, 0, 0), Some(Publisher::Pass));
    assert_eq!(publisher(&sums, 4, 0), Some(Publisher::Issue));
    assert_eq!(publisher(&sums, 4, 1), None);
    assert_eq!(publisher(&sums, 2, 0), None);
}

#[test]
fn blocks_that_ran_nothing_are_left_out_of_the_mean() {
    let mut counters = vec![0u64; 3 * COUNTERS + 5];
    counters[ITEMS] = 1;
    counters[2 * COUNTERS + ITEMS] = 4;
    assert_eq!(live_blocks(&counters), vec![0, 2 * COUNTERS]);
}

#[test]
fn cadence_variants_count_their_instructions() {
    assert_eq!(cadence_variant(0).instructions, 8);
    assert_eq!(cadence_variant(2).units, 32);
    assert_eq!(cadence_variant(3).name, "mma_ab   M128_N64x2 K=64 (dQ, shipped)");
    let instructions = cadence_variant(1).instructions as u64;
    assert_eq!(cadence_counters(1, 10, 77, 100, 140, 190), [40, 90, 77, 10 * instructions]);
    let step = band_step(1, 2, 8192, false);
    assert_eq!((step.column, step.left, step.right), (64, 64, 8192 + 4096));
    assert!(step.accumulates);
    assert!(!band_step(1, 0, 8192, false).accumulates);
}
