//! Launches of the tensor-core attention kernels, and the layouts their
//! operands are addressed by.

use crate::arith::{lemma_join_bounds, lemma_mul_monotone};
use crate::flash::schedule::AttentionGrid;
use crate::launch::LaunchConfig;
use crate::profile::KernelBudget;
use vstd::prelude::*;

verus! {

/// Key tile edge, and half a query block.
pub const FLASH_TILE: usize = 64;

/// Query rows one block owns. A sequence length is a multiple of this; other
/// shapes stay on the tiled fp32 kernels.
pub const FLASH_QUERIES: usize = 128;

/// The only head width the tensor-core kernels support.
pub const FLASH_HD: usize = 128;

/// Width of one swizzled subtile: a head panel is two of them.
pub const FLASH_SUBTILE_HD: usize = 64;

/// Bytes of one `[64, 128]` bf16 panel.
pub const TILE_BYTES: usize = 16384;

/// Dynamic shared bytes of the score probe: a `[128, 128]` operand and a panel.
pub const PROBE_DYNAMIC_SMEM_BYTES: u32 = 49152;

/// Shared memory one multiprocessor gives its blocks.
pub const SM_SHARED_BYTES: usize = 233472;

/// Tensor-memory columns of one multiprocessor.
pub const SM_TMEM_COLUMNS: usize = 512;

/// Tensor-memory columns one forward block allocates.
pub const FORWARD_TMEM_COLUMNS: u32 = 256;

/// Tensor-memory columns one backward block allocates.
pub const BACKWARD_TMEM_COLUMNS: u32 = 512;

/// Threads of a forward block: the four warps that drain a 128-row accumulator.
pub const FLASH_FORWARD_BLOCK_THREADS: u32 = 128;

/// Threads of a backward block: those four warps and the issuing one.
pub const FLASH_BACKWARD_BLOCK_THREADS: u32 = 160;

/// Most blocks or heads a launch takes.
pub const MAX_PLANE_EXTENT: usize = 65535;

/// Work items of a launch: one per (128-row block, head, batch).
pub open spec fn work_items(batches: int, sequence_length: int, heads: int) -> int {
    (sequence_length / FLASH_QUERIES as int) * heads * batches
}

/// The smaller of two counts.
pub open spec fn lesser(a: int, b: int) -> int {
    if a < b {
        a
    } else {
        b
    }
}

/// A block count of at least one.
pub open spec fn at_least_one(count: int) -> int {
    if count < 1 {
        1
    } else {
        count
    }
}

/// A shape the launch configurations accept.
pub open spec fn launchable(batches: int, sequence_length: int, heads: int) -> bool {
    &&& 0 <= batches <= MAX_PLANE_EXTENT
    &&& 0 <= heads <= MAX_PLANE_EXTENT
    &&& 0 <= sequence_length
    &&& sequence_length % FLASH_QUERIES as int == 0
    &&& 0 < work_items(batches, sequence_length, heads) <= u32::MAX
}

/// Forward blocks one multiprocessor admits, by what shared memory and tensor
/// memory each allow.
pub open spec fn forward_residency(shared_bytes: int) -> int {
    lesser(
        SM_SHARED_BYTES as int / shared_bytes,
        SM_TMEM_COLUMNS as int / FORWARD_TMEM_COLUMNS as int,
    )
}

/// Work items of a launch, one per (128-row block, head, batch).
pub fn flash_work_items(batches: usize, sequence_length: usize, heads: usize) -> (items: usize)
    requires
        sequence_length % FLASH_QUERIES == 0,
        (sequence_length / FLASH_QUERIES) * heads <= usize::MAX,
        work_items(batches as int, sequence_length as int, heads as int) <= usize::MAX,
    ensures
        items == work_items(batches as int, sequence_length as int, heads as int),
        items == (sequence_length as int / 128) * heads * batches,
{
    (sequence_length / FLASH_QUERIES) * heads * batches
}

/// Elements of the correction-count output: one word per work item.
pub fn correction_count_len(batches: usize, sequence_length: usize, heads: usize) -> (len: usize)
    requires
        sequence_length % FLASH_QUERIES == 0,
        (sequence_length / FLASH_QUERIES) * heads <= usize::MAX,
        work_items(batches as int, sequence_length as int, heads as int) <= usize::MAX,
    ensures
        len == work_items(batches as int, sequence_length as int, heads as int),
        len == (sequence_length as int / 128) * heads * batches,
{
    flash_work_items(batches, sequence_length, heads)
}

proof fn lemma_launchable(batches: int, sequence_length: int, heads: int)
    requires
        launchable(batches, sequence_length, heads),
    ensures
        0 < batches,
        0 < heads,
        0 < sequence_length,
        (sequence_length / 128) * heads <= u32::MAX,
{
    let tiles = sequence_length / 128;
    let items = work_items(batches, sequence_length, heads);
    assert(0 < batches && 0 < tiles * heads) by (nonlinear_arith)
        requires
            items == tiles * heads * batches,
            0 < items,
            0 <= batches,
            0 <= heads,
            0 <= tiles,
    ;
    assert(0 < heads && 0 < tiles) by (nonlinear_arith)
        requires
            0 < tiles * heads,
            0 <= heads,
            0 <= tiles,
    ;
    assert(tiles * heads <= items) by (nonlinear_arith)
        requires
            items == tiles * heads * batches,
            1 <= batches,
            0 < tiles * heads,
    ;
}

/// Launch of either backward kernel: a persistent one-dimensional grid, one
/// block per multiprocessor, clamped to the work items.
fn flash_backward_config(
    batches: usize,
    sequence_length: usize,
    heads: usize,
    cta_count: usize,
    dynamic_smem: u32,
) -> (config: LaunchConfig)
    requires
        launchable(batches as int, sequence_length as int, heads as int),
    ensures
        config == (LaunchConfig {
            grid_dim: (
                lesser(
                    work_items(batches as int, sequence_length as int, heads as int),
                    at_least_one(cta_count as int),
                ) as u32,
                1,
                1,
            ),
            block_dim: (FLASH_BACKWARD_BLOCK_THREADS, 1, 1),
            shared_mem_bytes: dynamic_smem,
        }),
        config.grid_dim.0 <= (sequence_length as int / 128) * heads * batches,
        config.grid_dim.0 <= cta_count || config.grid_dim.0 == 1,
        config.grid_dim.0 == (sequence_length as int / 128) * heads * batches || config.grid_dim.0
            == cta_count || cta_count == 0 && config.grid_dim.0 == 1,
        config.grid_dim.1 == 1 && config.grid_dim.2 == 1,
        config.block_dim == (160u32, 1u32, 1u32),
{
    proof {
        lemma_launchable(batches as int, sequence_length as int, heads as int);
    }
    let items: usize = flash_work_items(batches, sequence_length, heads);
    let ctas: usize = if cta_count < 1 {
        1
    } else {
        cta_count
    };
    let blocks: usize = if items < ctas {
        items
    } else {
        ctas
    };
    LaunchConfig {
        grid_dim: (blocks as u32, 1, 1),
        block_dim: (FLASH_BACKWARD_BLOCK_THREADS, 1, 1),
        shared_mem_bytes: dynamic_smem,
    }
}

/// Launch of the query-parallel backward. `shared_bytes` is what the kernel's
/// shared-memory plan takes.
pub fn flash_backward_q_config(
    batches: usize,
    sequence_length: usize,
    heads: usize,
    cta_count: usize,
    shared_bytes: u32,
) -> (config: LaunchConfig)
    requires
        launchable(batches as int, sequence_length as int, heads as int),
    ensures
        config == (LaunchConfig {
            grid_dim: (
                lesser(
                    work_items(batches as int, sequence_length as int, heads as int),
                    at_least_one(cta_count as int),
                ) as u32,
                1,
                1,
            ),
            block_dim: (FLASH_BACKWARD_BLOCK_THREADS, 1, 1),
            shared_mem_bytes: shared_bytes,
        }),
        config.grid_dim.0 <= (sequence_length as int / 128) * heads * batches,
        config.grid_dim.0 <= cta_count || config.grid_dim.0 == 1,
        config.grid_dim.0 == (sequence_length as int / 128) * heads * batches || config.grid_dim.0
            == cta_count || cta_count == 0 && config.grid_dim.0 == 1,
        config.grid_dim.1 == 1 && config.grid_dim.2 == 1,
        config.block_dim == (160u32, 1u32, 1u32),
{
    flash_backward_config(batches, sequence_length, heads, cta_count, shared_bytes)
}

/// Launch of the key-parallel backward. `shared_bytes` is what the kernel's
/// shared-memory plan takes.
pub fn flash_backward_kv_config(
    batches: usize,
    sequence_length: usize,
    heads: usize,
    cta_count: usize,
    shared_bytes: u32,
) -> (config: LaunchConfig)
    requires
        launchable(batches as int, sequence_length as int, heads as int),
    ensures
        config == (LaunchConfig {
            grid_dim: (
                lesser(
                    work_items(batches as int, sequence_length as int, heads as int),
                    at_least_one(cta_count as int),
                ) as u32,
                1,
                1,
            ),
            block_dim: (FLASH_BACKWARD_BLOCK_THREADS, 1, 1),
            shared_mem_bytes: shared_bytes,
        }),
        config.grid_dim.0 <= (sequence_length as int / 128) * heads * batches,
        config.grid_dim.0 <= cta_count || config.grid_dim.0 == 1,
        config.grid_dim.0 == (sequence_length as int / 128) * heads * batches || config.grid_dim.0
            == cta_count || cta_count == 0 && config.grid_dim.0 == 1,
        config.grid_dim.1 == 1 && config.grid_dim.2 == 1,
        config.block_dim == (160u32, 1u32, 1u32),
{
    flash_backward_config(batches, sequence_length, heads, cta_count, shared_bytes)
}

/// Forward blocks one multiprocessor admits at a plan of `shared_bytes`.
pub fn flash_forward_ctas_per_sm(shared_bytes: u32) -> (ctas: usize)
    requires
        0 < shared_bytes <= SM_SHARED_BYTES,
    ensures
        ctas == forward_residency(shared_bytes as int),
        1 <= ctas <= 2,
        ctas == 2 <==> 2 * shared_bytes <= 233472,
{
    proof {
        vstd::arithmetic::div_mod::lemma_div_is_ordered_by_denominator(
            SM_SHARED_BYTES as int,
            shared_bytes as int,
            SM_SHARED_BYTES as int,
        );
    }
    let by_shared: usize = SM_SHARED_BYTES / (shared_bytes as usize);
    let by_tmem: usize = SM_TMEM_COLUMNS / (FORWARD_TMEM_COLUMNS as usize);
    proof {
        lemma_two_fit(shared_bytes as int);
    }
    if by_shared < by_tmem {
        by_shared
    } else {
        by_tmem
    }
}

/// Two blocks' plans fit a multiprocessor's shared memory where twice one does.
proof fn lemma_two_fit(shared_bytes: int)
    requires
        0 < shared_bytes,
    ensures
        2 <= 233472int / shared_bytes <==> 2 * shared_bytes <= 233472,
{
    let fit = 233472int / shared_bytes;
    let rest = 233472int % shared_bytes;
    vstd::arithmetic::div_mod::lemma_fundamental_div_mod(233472, shared_bytes);
    vstd::arithmetic::div_mod::lemma_mod_pos_bound(233472, shared_bytes);
    assert(2 <= fit <==> 2 * shared_bytes <= 233472) by (nonlinear_arith)
        requires
            233472 == shared_bytes * fit + rest,
            0 <= rest < shared_bytes,
    ;
}

/// Launch of the forward: a persistent one-dimensional grid with as many blocks
/// per multiprocessor as one admits, clamped to the work items.
pub fn flash_forward_config(
    batches: usize,
    sequence_length: usize,
    heads: usize,
    cta_count: usize,
    shared_bytes: u32,
) -> (config: LaunchConfig)
    requires
        launchable(batches as int, sequence_length as int, heads as int),
        0 < shared_bytes <= SM_SHARED_BYTES,
        at_least_one(cta_count as int) * forward_residency(shared_bytes as int) <= usize::MAX,
    ensures
        config == (LaunchConfig {
            grid_dim: (
                lesser(
                    work_items(batches as int, sequence_length as int, heads as int),
                    at_least_one(cta_count as int) * forward_residency(shared_bytes as int),
                ) as u32,
                1,
                1,
            ),
            block_dim: (FLASH_FORWARD_BLOCK_THREADS, 1, 1),
            shared_mem_bytes: shared_bytes,
        }),
        config.grid_dim.0 <= (sequence_length as int / 128) * heads * batches,
        config.grid_dim.0 == (sequence_length as int / 128) * heads * batches || config.grid_dim.0
            == (if cta_count < 1 {
            1
        } else {
            cta_count as int
        }) * (if 2 * shared_bytes <= 233472 {
            2int
        } else {
            1
        }),
        config.grid_dim.0 <= (if cta_count < 1 {
            1
        } else {
            cta_count as int
        }) * (if 2 * shared_bytes <= 233472 {
            2int
        } else {
            1
        }),
        config.grid_dim.1 == 1 && config.grid_dim.2 == 1,
        config.block_dim == (128u32, 1u32, 1u32),
{
    proof {
        lemma_launchable(batches as int, sequence_length as int, heads as int);
    }
    let items: usize = flash_work_items(batches, sequence_length, heads);
    let count: usize = if cta_count < 1 {
        1
    } else {
        cta_count
    };
    let ctas: usize = count * flash_forward_ctas_per_sm(shared_bytes);
    let blocks: usize = if items < ctas {
        items
    } else {
        ctas
    };
    LaunchConfig {
        grid_dim: (blocks as u32, 1, 1),
        block_dim: (FLASH_FORWARD_BLOCK_THREADS, 1, 1),
        shared_mem_bytes: shared_bytes,
    }
}

/// Law: a launchable shape whose rows fit 32 bits is one whose items the
/// kernels can decode, and both sides count the same items.
pub proof fn law_launched_items_are_the_kernels_items(
    batches: u32,
    sequence_length: u32,
    heads: u32,
)
    requires
        launchable(batches as int, sequence_length as int, heads as int),
        batches * sequence_length <= u32::MAX,
    ensures
        ({
            let grid = AttentionGrid { sequence_length, heads, batches };
            &&& grid.well_formed()
            &&& grid.items() == work_items(batches as int, sequence_length as int, heads as int)
        }),
{
    lemma_launchable(batches as int, sequence_length as int, heads as int);
    let tiles = sequence_length as int / 128;
    assert(tiles * (heads * batches) == tiles * heads * batches) by (nonlinear_arith);
    lemma_mul_monotone(heads as int, 65535, batches as int);
    lemma_mul_monotone(batches as int, 65535, 65535);
}

/// Bytes of the forward's operand tiles: the resident query block, the two
/// streamed rings and one probability tile.
pub open spec fn forward_tile_bytes(stages: int) -> int {
    2 * TILE_BYTES + 2 * stages * TILE_BYTES + TILE_BYTES
}

/// Law: with no more than 2 KiB beside its tiles, the forward runs two blocks
/// per multiprocessor at two stages and one at three or four.
pub proof fn law_two_stages_admit_two_blocks(stages: int, rest: int)
    requires
        2 <= stages <= 4,
        0 <= rest <= 2048,
    ensures
        forward_residency(forward_tile_bytes(stages) + rest) == if stages == 2 {
            2int
        } else {
            1
        },
{
    let bytes = forward_tile_bytes(stages) + rest;
    let fit = SM_SHARED_BYTES as int / bytes;
    vstd::arithmetic::div_mod::lemma_fundamental_div_mod(SM_SHARED_BYTES as int, bytes);
    vstd::arithmetic::div_mod::lemma_mod_pos_bound(SM_SHARED_BYTES as int, bytes);
    let remainder = SM_SHARED_BYTES as int % bytes;
    if stages == 2 {
        assert(fit == 2) by (nonlinear_arith)
            requires
                233472 == bytes * fit + remainder,
                0 <= remainder < bytes,
                114688 <= bytes <= 116736,
        ;
    } else {
        assert(fit == 1) by (nonlinear_arith)
            requires
                233472 == bytes * fit + remainder,
                0 <= remainder < bytes,
                147456 <= bytes <= 182272,
        ;
    }
}

/// Launch of the multiply-cadence probe: one warp of one block.
pub fn cadence_config(shared_bytes: u32) -> (config: LaunchConfig)
    ensures
        config == (LaunchConfig {
            grid_dim: (1, 1, 1),
            block_dim: (32, 1, 1),
            shared_mem_bytes: shared_bytes,
        }),
{
    LaunchConfig { grid_dim: (1, 1, 1), block_dim: (32, 1, 1), shared_mem_bytes: shared_bytes }
}

/// Launch of the score-operand probe: one block of a tile's rows.
pub fn transpose_probe_config() -> (config: LaunchConfig)
    ensures
        config == (LaunchConfig {
            grid_dim: (1, 1, 1),
            block_dim: (64, 1, 1),
            shared_mem_bytes: PROBE_DYNAMIC_SMEM_BYTES,
        }),
        config.shared_mem_bytes == 49152,
{
    LaunchConfig {
        grid_dim: (1, 1, 1),
        block_dim: (FLASH_TILE as u32, 1, 1),
        shared_mem_bytes: PROBE_DYNAMIC_SMEM_BYTES,
    }
}

/// Launch of the swizzle probe: one block of a tile's rows.
pub fn swizzle_probe_config() -> (config: LaunchConfig)
    ensures
        config == (LaunchConfig {
            grid_dim: (1, 1, 1),
            block_dim: (64, 1, 1),
            shared_mem_bytes: 16384,
        }),
{
    LaunchConfig {
        grid_dim: (1, 1, 1),
        block_dim: (FLASH_TILE as u32, 1, 1),
        shared_mem_bytes: TILE_BYTES as u32,
    }
}

/// A three-dimensional bf16 layout: elements along each axis and the step, in
/// elements, of each axis.
#[derive(Clone, Copy, PartialEq, Eq, Structural, Debug)]
pub struct PanelLayout {
    pub columns: usize,
    pub rows: usize,
    pub planes: usize,
    pub column_stride: usize,
    pub row_stride: usize,
    pub plane_stride: usize,
}

impl PanelLayout {
    /// Element that a coordinate addresses.
    pub open spec fn element(self, plane: int, row: int, column: int) -> int {
        self.plane_stride * plane + self.row_stride * row + self.column_stride * column
    }
}

/// Map over a packed-pair staging buffer of `len` words that holds `planes`
/// panels of `[sequence_length, 128]` bf16 values.
pub fn create_flash_head_tma_map(len: usize, sequence_length: usize, planes: usize) -> (layout:
    PanelLayout)
    requires
        planes * sequence_length * FLASH_HD <= usize::MAX,
        sequence_length * FLASH_HD <= usize::MAX,
        len * 2 == planes * sequence_length * FLASH_HD,
    ensures
        layout == (PanelLayout {
            columns: FLASH_HD,
            rows: sequence_length,
            planes,
            column_stride: 1,
            row_stride: FLASH_HD,
            plane_stride: (sequence_length * FLASH_HD) as usize,
        }),
        layout.columns == 128 && layout.column_stride == 1 && layout.row_stride == 128,
        layout.plane_stride == 128 * sequence_length,
{
    PanelLayout {
        columns: FLASH_HD,
        rows: sequence_length,
        planes,
        column_stride: 1,
        row_stride: FLASH_HD,
        plane_stride: sequence_length * FLASH_HD,
    }
}

/// Map that reads a row-major packed-pair `[rows, heads * 128]` panel of
/// `len` words as head panels: a head is a band of 128 columns, and a
/// `(batch, token)` pair is one row.
pub fn create_flash_row_major_tma_map(len: usize, rows: usize, heads: usize) -> (layout: PanelLayout)
    requires
        rows * heads * FLASH_HD <= usize::MAX,
        heads * FLASH_HD <= usize::MAX,
        len * 2 == rows * heads * FLASH_HD,
        rows % FLASH_TILE == 0,
    ensures
        layout == (PanelLayout {
            columns: FLASH_HD,
            rows,
            planes: heads,
            column_stride: 1,
            row_stride: (heads * FLASH_HD) as usize,
            plane_stride: FLASH_HD,
        }),
        layout.columns == 128 && layout.column_stride == 1 && layout.plane_stride == 128,
        layout.row_stride == 128 * heads,
{
    PanelLayout {
        columns: FLASH_HD,
        rows,
        planes: heads,
        column_stride: 1,
        row_stride: heads * FLASH_HD,
        plane_stride: FLASH_HD,
    }
}

/// Law: a row-major layout addresses, at plane `head` and row
/// `batch * sequence_length + token`, the panel's own element in that row at
/// column `head * 128 + column`, and stays inside the buffer.
pub proof fn law_row_major_layout_addresses_the_panel(
    layout: PanelLayout,
    rows: int,
    heads: int,
    head: int,
    row: int,
    column: int,
)
    requires
        layout.columns == FLASH_HD,
        layout.rows == rows,
        layout.planes == heads,
        layout.column_stride == 1,
        layout.row_stride == heads * FLASH_HD,
        layout.plane_stride == FLASH_HD,
        0 <= head < heads,
        0 <= row < rows,
        0 <= column < FLASH_HD,
    ensures
        layout.element(head, row, column) == heads * FLASH_HD * row + (FLASH_HD * head + column),
        0 <= layout.element(head, row, column) < rows * (heads * FLASH_HD),
{
    lemma_join_bounds(head, column, 128, heads);
    lemma_join_bounds(row, 128 * head + column, 128 * heads, rows);
    assert(128 * heads * rows == rows * (heads * 128)) by (nonlinear_arith);
}

/// What the attention kernels are pinned to.
pub fn kernel_budgets() -> (budgets: Vec<KernelBudget>)
    ensures
        budgets@.len() == 3,
        budgets@[0].name@ == "forward"@,
        budgets@[0].max_registers == 246,
        budgets@[0].max_spill_bytes == 1072,
        budgets@[1].name@ == "backward q"@,
        budgets@[1].max_registers == 244,
        budgets@[1].max_spill_bytes == 528,
        budgets@[2].name@ == "backward kv"@,
        budgets@[2].max_registers == 244,
        budgets@[2].max_spill_bytes == 528,
{
    let mut budgets: Vec<KernelBudget> = Vec::new();
    budgets.push(KernelBudget { name: "forward", max_registers: 246, max_spill_bytes: 1072 });
    budgets.push(KernelBudget { name: "backward q", max_registers: 244, max_spill_bytes: 528 });
    budgets.push(KernelBudget { name: "backward kv", max_registers: 244, max_spill_bytes: 528 });
    budgets
}

/// Law: the work items share out the rows of all heads: 128 of them each.
pub proof fn law_an_item_is_a_block_of_rows(batches: int, sequence_length: int, heads: int)
    requires
        sequence_length % 128 == 0,
    ensures
        128 * work_items(batches, sequence_length, heads) == sequence_length * heads * batches,
{
    let tiles = sequence_length / 128;
    assert(128 * (tiles * heads * batches) == sequence_length * heads * batches)
        by (nonlinear_arith)
        requires
            sequence_length == 128 * tiles,
    ;
}

/// Law: as many forward blocks fit a multiprocessor as its shared memory holds
/// plans, and as its 512 tensor-memory columns hold allocations of 256; one more
/// does not fit.
pub proof fn law_residency_is_the_most_that_fits(shared_bytes: int)
    requires
        0 < shared_bytes <= 233472,
    ensures
        ({
            let ctas = forward_residency(shared_bytes);
            &&& 1 <= ctas
            &&& ctas * shared_bytes <= 233472
            &&& 256 * ctas <= 512
            &&& 233472 < (ctas + 1) * shared_bytes || 512 < 256 * (ctas + 1)
        }),
{
    lemma_two_fit(shared_bytes);
    vstd::arithmetic::div_mod::lemma_div_is_ordered_by_denominator(233472, shared_bytes, 233472);
    assert(1 <= 233472int / shared_bytes);
    let ctas = forward_residency(shared_bytes);
    assert(ctas == 1 || ctas == 2);
}

/// Law: a staged layout addresses, at plane `plane`, row `row` and column
/// `column`, the element of that panel, the panels one after another, and stays
/// inside the buffer.
pub proof fn law_head_layout_addresses_the_panels(
    layout: PanelLayout,
    sequence_length: int,
    planes: int,
    plane: int,
    row: int,
    column: int,
)
    requires
        layout.column_stride == 1,
        layout.row_stride == 128,
        layout.plane_stride == 128 * sequence_length,
        0 <= plane < planes,
        0 <= row < sequence_length,
        0 <= column < 128,
    ensures
        layout.element(plane, row, column) == 128 * (sequence_length * plane + row) + column,
        0 <= layout.element(plane, row, column) < planes * sequence_length * 128,
{
    lemma_join_bounds(plane, row, sequence_length, planes);
    lemma_join_bounds(sequence_length * plane + row, column, 128, sequence_length * planes);
    assert(128 * sequence_length * plane == 128 * (sequence_length * plane)) by (nonlinear_arith);
    assert(128 * (sequence_length * planes) == planes * sequence_length * 128) by (nonlinear_arith);
}

} // verus!
