//! Index maps of the register-tiled fp32 product `C = A B`.
//!
//! A block computes a 64 by 64 tile of `C`, a thread a 4 by 4 fragment of it.
//! The reduction runs in steps of 64 through two shared tiles. Either operand
//! may be stored transposed; elements outside the operands count as zero.

use crate::arith::{
    block_count, ceil_div, lemma_ceil_div, lemma_join_bounds, lemma_join_injective, lemma_split,
    lemma_split_bounds,
};
use crate::launch::LaunchConfig;
use vstd::prelude::*;

verus! {

/// Output rows of a block.
pub const BM: usize = 64;

/// Output columns of a block.
pub const BN: usize = 64;

/// Depth of one reduction step.
pub const BK: usize = 64;

/// Output rows of a thread.
pub const TM: usize = 4;

/// Output columns of a thread.
pub const TN: usize = 4;

/// Threads along the columns of a block.
pub const THREADS_N: usize = 16;

/// Threads of a block.
pub const THREADS: usize = 256;

/// Elements of either shared tile.
pub const TILE_ELEMENTS: usize = 4096;

/// Extents of `C[m, n] = A[m, k] B[k, n]`.
#[derive(Clone, Copy, PartialEq, Eq, Structural, Debug)]
pub struct GemmShape {
    pub m: usize,
    pub n: usize,
    pub k: usize,
}

/// One element on its way into a shared tile.
#[derive(Clone, Copy, PartialEq, Eq, Structural, Debug)]
pub struct StagedElement {
    /// Slot of the shared tile.
    pub slot: usize,
    /// Element of the operand, or none where the tile reaches past it.
    pub source: Option<usize>,
}

impl GemmShape {
    /// Every index fits the machine.
    pub open spec fn well_formed(self) -> bool {
        &&& self.m * self.k <= usize::MAX
        &&& self.k * self.n <= usize::MAX
        &&& self.m * self.n <= usize::MAX
        &&& self.m + 128 <= usize::MAX
        &&& self.n + 128 <= usize::MAX
        &&& self.k + 128 <= usize::MAX
    }

    /// Where `A[row, depth]` is stored.
    pub open spec fn a_element(self, transposed: bool, row: int, depth: int) -> int {
        if transposed {
            self.m * depth + row
        } else {
            self.k * row + depth
        }
    }

    /// Where `B[depth, col]` is stored.
    pub open spec fn b_element(self, transposed: bool, depth: int, col: int) -> int {
        if transposed {
            self.k * col + depth
        } else {
            self.n * depth + col
        }
    }

    /// Where `C[row, col]` is stored.
    pub open spec fn c_element(self, row: int, col: int) -> int {
        self.n * row + col
    }
}

/// Cell of a shared tile that a thread stages as its element `local`: row and
/// depth of `A`'s, depth and column of `B`'s. A transposed operand is walked in
/// its own storage order.
pub open spec fn staged_cell(transposed: bool, local: int) -> (int, int) {
    if transposed {
        (local % 64, local / 64)
    } else {
        (local / 64, local % 64)
    }
}

/// Slot of a shared tile that holds its cell.
pub open spec fn tile_slot(cell: (int, int)) -> int {
    64 * cell.0 + cell.1
}

/// Stages element `local` of the tile of `A` at rows from `block_row` and
/// depths from `k_base`.
pub fn stage_a(
    shape: &GemmShape,
    transposed: bool,
    block_row: usize,
    k_base: usize,
    local: usize,
) -> (staged: StagedElement)
    requires
        shape.well_formed(),
        block_row <= shape.m,
        k_base <= shape.k,
        local < TILE_ELEMENTS,
    ensures
        ({
            let cell = staged_cell(transposed, local as int);
            &&& staged.slot == tile_slot(cell)
            &&& staged.slot < TILE_ELEMENTS
            &&& match staged.source {
                Some(element) => {
                    &&& block_row + cell.0 < shape.m
                    &&& k_base + cell.1 < shape.k
                    &&& element == shape.a_element(transposed, block_row + cell.0, k_base + cell.1)
                    &&& element < shape.m * shape.k
                },
                None => shape.m <= block_row + cell.0 || shape.k <= k_base + cell.1,
            }
        }),
        staged.slot == if transposed {
            64 * (local as int % 64) + local as int / 64
        } else {
            local as int
        },
        ({
            let row = block_row + staged.slot as int / 64;
            let depth = k_base + staged.slot as int % 64;
            &&& staged.source is Some <==> row < shape.m && depth < shape.k
            &&& staged.source is Some ==> staged.source->0 == if transposed {
                shape.m * depth + row
            } else {
                shape.k * row + depth
            }
        }),
{
    let (tile_row, tile_col): (usize, usize) = if transposed {
        (local % BM, local / BM)
    } else {
        (local / BK, local % BK)
    };
    let row: usize = block_row + tile_row;
    let depth: usize = k_base + tile_col;
    let source: Option<usize> = if row < shape.m && depth < shape.k {
        proof {
            lemma_join_bounds(row as int, depth as int, shape.k as int, shape.m as int);
            lemma_join_bounds(depth as int, row as int, shape.m as int, shape.k as int);
            assert(row * shape.k == shape.k * row) by (nonlinear_arith);
            assert(depth * shape.m == shape.m * depth) by (nonlinear_arith);
            assert(shape.k * shape.m == shape.m * shape.k) by (nonlinear_arith);
            assert(0 <= shape.k * row) by (nonlinear_arith);
            assert(0 <= shape.m * depth) by (nonlinear_arith);
        }
        if transposed {
            Some(depth * shape.m + row)
        } else {
            Some(row * shape.k + depth)
        }
    } else {
        None
    };
    StagedElement { slot: tile_row * BK + tile_col, source }
}

/// Stages element `local` of the tile of `B` at depths from `k_base` and
/// columns from `block_col`.
pub fn stage_b(
    shape: &GemmShape,
    transposed: bool,
    block_col: usize,
    k_base: usize,
    local: usize,
) -> (staged: StagedElement)
    requires
        shape.well_formed(),
        block_col <= shape.n,
        k_base <= shape.k,
        local < TILE_ELEMENTS,
    ensures
        ({
            let cell = staged_cell(transposed, local as int);
            &&& staged.slot == tile_slot(cell)
            &&& staged.slot < TILE_ELEMENTS
            &&& match staged.source {
                Some(element) => {
                    &&& k_base + cell.0 < shape.k
                    &&& block_col + cell.1 < shape.n
                    &&& element == shape.b_element(transposed, k_base + cell.0, block_col + cell.1)
                    &&& element < shape.k * shape.n
                },
                None => shape.k <= k_base + cell.0 || shape.n <= block_col + cell.1,
            }
        }),
        staged.slot == if transposed {
            64 * (local as int % 64) + local as int / 64
        } else {
            local as int
        },
        ({
            let depth = k_base + staged.slot as int / 64;
            let col = block_col + staged.slot as int % 64;
            &&& staged.source is Some <==> depth < shape.k && col < shape.n
            &&& staged.source is Some ==> staged.source->0 == if transposed {
                shape.k * col + depth
            } else {
                shape.n * depth + col
            }
        }),
{
    let (tile_row, tile_col): (usize, usize) = if transposed {
        (local % BK, local / BK)
    } else {
        (local / BN, local % BN)
    };
    let depth: usize = k_base + tile_row;
    let col: usize = block_col + tile_col;
    let source: Option<usize> = if depth < shape.k && col < shape.n {
        proof {
            lemma_join_bounds(depth as int, col as int, shape.n as int, shape.k as int);
            lemma_join_bounds(col as int, depth as int, shape.k as int, shape.n as int);
            assert(depth * shape.n == shape.n * depth) by (nonlinear_arith);
            assert(col * shape.k == shape.k * col) by (nonlinear_arith);
            assert(shape.n * shape.k == shape.k * shape.n) by (nonlinear_arith);
            assert(0 <= shape.n * depth) by (nonlinear_arith);
            assert(0 <= shape.k * col) by (nonlinear_arith);
        }
        if transposed {
            Some(col * shape.k + depth)
        } else {
            Some(depth * shape.n + col)
        }
    } else {
        None
    };
    StagedElement { slot: tile_row * BN + tile_col, source }
}

/// Law: the elements of a block's threads fill each slot of either shared tile
/// exactly once, whichever way the operand is stored.
pub proof fn law_staging_fills_every_slot_once(transposed: bool, first: int, second: int, slot: int)
    requires
        0 <= first < TILE_ELEMENTS,
        0 <= second < TILE_ELEMENTS,
        0 <= slot < TILE_ELEMENTS,
    ensures
        tile_slot(staged_cell(transposed, first)) == tile_slot(staged_cell(transposed, second))
            ==> first == second,
        exists|local: int|
            0 <= local < TILE_ELEMENTS && #[trigger] tile_slot(staged_cell(transposed, local))
                == slot,
{
    lemma_split_bounds(first, 64, 64);
    lemma_split_bounds(second, 64, 64);
    if tile_slot(staged_cell(transposed, first)) == tile_slot(staged_cell(transposed, second)) {
        let (c1, c2) = (staged_cell(transposed, first), staged_cell(transposed, second));
        lemma_join_injective(64, c1.0, c1.1, c2.0, c2.1);
    }
    lemma_split_bounds(slot, 64, 64);
    let local = if transposed {
        64 * (slot % 64) + slot / 64
    } else {
        slot
    };
    if transposed {
        lemma_split(local, 64, slot % 64, slot / 64);
    }
    assert(tile_slot(staged_cell(transposed, local)) == slot);
}

/// Row and column, within the block, of entry `(row, col)` of a thread.
pub open spec fn fragment_cell(tid: int, row: int, col: int) -> (int, int) {
    (TM * (tid / 16) + row, TN * (tid % 16) + col)
}

/// Slots of the two shared tiles whose product a thread adds to its entry
/// `(row, col)` at depth `inner` of a step.
pub fn product_slots(tid: usize, row: usize, col: usize, inner: usize) -> (slots: (usize, usize))
    requires
        tid < THREADS,
        row < TM,
        col < TN,
        inner < BK,
    ensures
        slots.0 == tile_slot(
            (fragment_cell(tid as int, row as int, col as int).0, inner as int),
        ),
        slots.1 == tile_slot(
            (inner as int, fragment_cell(tid as int, row as int, col as int).1),
        ),
        slots.0 < TILE_ELEMENTS,
        slots.1 < TILE_ELEMENTS,
        slots.0 == 64 * (4 * (tid as int / 16) + row) + inner,
        slots.1 == 64 * inner + (4 * (tid as int % 16) + col),
{
    let thread_row: usize = tid / THREADS_N;
    let thread_col: usize = tid % THREADS_N;
    ((thread_row * TM + row) * BK + inner, inner * BN + thread_col * TN + col)
}

/// Law: the products a thread adds to an entry are of the entry's own row and
/// column. Whatever was staged into the slots it reads at depth `inner` is
/// `A`'s element of the entry's row, and `B`'s of its column, at that depth.
pub proof fn law_products_are_of_one_row_and_column(
    transposed: bool,
    tid: int,
    row: int,
    col: int,
    inner: int,
    local: int,
)
    requires
        0 <= tid < THREADS,
        0 <= row < TM,
        0 <= col < TN,
        0 <= inner < BK,
        0 <= local < TILE_ELEMENTS,
    ensures
        ({
            let cell = fragment_cell(tid, row, col);
            let staged = staged_cell(transposed, local);
            &&& tile_slot(staged) == tile_slot((cell.0, inner)) ==> staged == (cell.0, inner)
            &&& tile_slot(staged) == tile_slot((inner, cell.1)) ==> staged == (inner, cell.1)
        }),
{
    let cell = fragment_cell(tid, row, col);
    lemma_split_bounds(local, 64, 64);
    lemma_split_bounds(tid, 16, 16);
    let staged = staged_cell(transposed, local);
    if tile_slot(staged) == tile_slot((cell.0, inner)) {
        lemma_join_injective(64, staged.0, staged.1, cell.0, inner);
    }
    if tile_slot(staged) == tile_slot((inner, cell.1)) {
        lemma_join_injective(64, staged.0, staged.1, inner, cell.1);
    }
}

/// Element of `C` that a thread writes its entry `(row, col)` to; an entry past
/// the edge of `C` is not written.
pub fn output_element(
    shape: &GemmShape,
    block_row: usize,
    block_col: usize,
    tid: usize,
    row: usize,
    col: usize,
) -> (target: Option<usize>)
    requires
        shape.well_formed(),
        block_row <= shape.m,
        block_col <= shape.n,
        tid < THREADS,
        row < TM,
        col < TN,
    ensures
        ({
            let cell = fragment_cell(tid as int, row as int, col as int);
            match target {
                Some(element) => {
                    &&& block_row + cell.0 < shape.m
                    &&& block_col + cell.1 < shape.n
                    &&& element == shape.c_element(block_row + cell.0, block_col + cell.1)
                    &&& element < shape.m * shape.n
                },
                None => shape.m <= block_row + cell.0 || shape.n <= block_col + cell.1,
            }
        }),
        ({
            let c_row = block_row + 4 * (tid as int / 16) + row;
            let c_col = block_col + 4 * (tid as int % 16) + col;
            &&& target is Some <==> c_row < shape.m && c_col < shape.n
            &&& target is Some ==> target->0 == shape.n * c_row + c_col
        }),
{
    let global_row: usize = block_row + (tid / THREADS_N) * TM + row;
    let global_col: usize = block_col + (tid % THREADS_N) * TN + col;
    if global_row < shape.m && global_col < shape.n {
        proof {
            lemma_join_bounds(
                global_row as int,
                global_col as int,
                shape.n as int,
                shape.m as int,
            );
            assert(global_row * shape.n == shape.n * global_row) by (nonlinear_arith);
            assert(shape.n * shape.m == shape.m * shape.n) by (nonlinear_arith);
            assert(0 <= shape.n * global_row) by (nonlinear_arith);
        }
        Some(global_row * shape.n + global_col)
    } else {
        None
    }
}

/// Entry `(row, col)` of thread `tid` of the block at grid position `(x, y)` is
/// what writes `element`.
pub open spec fn writes(
    shape: GemmShape,
    x: int,
    y: int,
    tid: int,
    row: int,
    col: int,
    element: int,
) -> bool {
    let cell = fragment_cell(tid, row, col);
    &&& 0 <= x < ceil_div(shape.n as int, 64)
    &&& 0 <= y < ceil_div(shape.m as int, 64)
    &&& 0 <= tid < THREADS
    &&& 0 <= row < TM
    &&& 0 <= col < TN
    &&& 64 * y + cell.0 < shape.m
    &&& 64 * x + cell.1 < shape.n
    &&& element == shape.c_element(64 * y + cell.0, 64 * x + cell.1)
}

/// Law: a launch writes each element of `C` exactly once: one block, one thread
/// and one entry own it.
pub proof fn law_each_element_is_written_once(shape: GemmShape, element: int)
    requires
        0 <= element < shape.m * shape.n,
    ensures
        exists|x: int, y: int, tid: int, row: int, col: int|
            #![trigger writes(shape, x, y, tid, row, col, element)]
            writes(shape, x, y, tid, row, col, element),
        forall|
            x1: int,
            y1: int,
            t1: int,
            r1: int,
            c1: int,
            x2: int,
            y2: int,
            t2: int,
            r2: int,
            c2: int,
        |
            #![trigger writes(shape, x1, y1, t1, r1, c1, element), writes(shape, x2, y2, t2, r2, c2, element)]
            writes(shape, x1, y1, t1, r1, c1, element) && writes(
                shape,
                x2,
                y2,
                t2,
                r2,
                c2,
                element,
            ) ==> x1 == x2 && y1 == y2 && t1 == t2 && r1 == r2 && c1 == c2,
{
    let m = shape.m as int;
    let n = shape.n as int;
    assert(m * n == n * m) by (nonlinear_arith);
    assert(0 < n) by (nonlinear_arith)
        requires
            0 <= element < n * m,
            0 <= n,
    ;
    lemma_split_bounds(element, n, m);
    let global_row = element / n;
    let global_col = element % n;
    lemma_ceil_div(m, 64);
    lemma_ceil_div(n, 64);
    lemma_split_bounds(global_row, 64, ceil_div(m, 64));
    lemma_split_bounds(global_col, 64, ceil_div(n, 64));
    let within_row = global_row % 64;
    let within_col = global_col % 64;
    let tid = 16 * (within_row / 4) + within_col / 4;
    lemma_split(tid, 16, within_row / 4, within_col / 4);
    assert(writes(
        shape,
        global_col / 64,
        global_row / 64,
        tid,
        within_row % 4,
        within_col % 4,
        element,
    ));
    assert forall|
        x1: int,
        y1: int,
        t1: int,
        r1: int,
        c1: int,
        x2: int,
        y2: int,
        t2: int,
        r2: int,
        c2: int,
    |
        #![trigger writes(shape, x1, y1, t1, r1, c1, element), writes(shape, x2, y2, t2, r2, c2, element)]
        writes(shape, x1, y1, t1, r1, c1, element) && writes(
            shape,
            x2,
            y2,
            t2,
            r2,
            c2,
            element,
        ) implies x1 == x2 && y1 == y2 && t1 == t2 && r1 == r2 && c1 == c2 by {
        let f1 = fragment_cell(t1, r1, c1);
        let f2 = fragment_cell(t2, r2, c2);
        lemma_join_injective(n, 64 * y1 + f1.0, 64 * x1 + f1.1, 64 * y2 + f2.0, 64 * x2 + f2.1);
        lemma_join_injective(64, y1, f1.0, y2, f2.0);
        lemma_join_injective(64, x1, f1.1, x2, f2.1);
        lemma_join_injective(4, t1 / 16, r1, t2 / 16, r2);
        lemma_join_injective(4, t1 % 16, c1, t2 % 16, c2);
    }
}

/// Law: every depth of the reduction is met exactly once, as one `inner` of one
/// step; the depths past `k` that the last step also meets are staged as zero.
pub proof fn law_each_depth_is_met_once(k: int, depth: int)
    requires
        0 <= depth < k,
    ensures
        ({
            let step = depth / 64;
            let inner = depth % 64;
            &&& 0 <= inner < BK
            &&& 0 <= 64 * step < k
            &&& 64 * step + inner == depth
        }),
        forall|s1: int, i1: int, s2: int, i2: int|
            #![trigger meets(s1, i1, depth), meets(s2, i2, depth)]
            meets(s1, i1, depth) && meets(s2, i2, depth) ==> s1 == s2 && i1 == i2,
{
    lemma_split_bounds(depth, 64, k);
    assert forall|s1: int, i1: int, s2: int, i2: int|
        #![trigger meets(s1, i1, depth), meets(s2, i2, depth)]
        meets(s1, i1, depth) && meets(s2, i2, depth) implies s1 == s2 && i1 == i2 by {
        lemma_join_injective(64, s1, i1, s2, i2);
    }
}

/// Step `step` meets `depth` as its `inner`.
pub open spec fn meets(step: int, inner: int, depth: int) -> bool {
    0 <= inner < BK && 64 * step + inner == depth
}

/// Launch of the register-tiled product: a block per 64 by 64 tile of `C`.
pub fn launch_config(m: usize, n: usize) -> (config: LaunchConfig)
    requires
        m <= u32::MAX,
        n <= u32::MAX,
    ensures
        config == (LaunchConfig {
            grid_dim: (ceil_div(n as int, 64) as u32, ceil_div(m as int, 64) as u32, 1),
            block_dim: (256, 1, 1),
            shared_mem_bytes: 0,
        }),
        n <= 64 * config.grid_dim.0 < n + 64,
        m <= 64 * config.grid_dim.1 < m + 64,
        config.grid_dim.2 == 1,
{
    proof {
        lemma_ceil_div(n as int, 64);
        lemma_ceil_div(m as int, 64);
    }
    LaunchConfig {
        grid_dim: (block_count(n, BN) as u32, block_count(m, BM) as u32, 1),
        block_dim: (THREADS as u32, 1, 1),
        shared_mem_bytes: 0,
    }
}

/// Law: an entry is written where it lies: the block at `(x, y)` has the tile of
/// `C` that many tiles right and down, thread `tid` the fragment `tid % 16` right
/// and `tid / 16` down within it.
pub proof fn law_an_entry_is_written_in_its_place(
    shape: GemmShape,
    x: int,
    y: int,
    tid: int,
    row: int,
    col: int,
    element: int,
)
    requires
        writes(shape, x, y, tid, row, col, element),
    ensures
        element == shape.n * (64 * y + 4 * (tid / 16) + row) + (64 * x + 4 * (tid % 16) + col),
        0 <= row < 4 && 0 <= col < 4 && 0 <= tid < 256,
{
}

/// Law: whichever way an operand is stored, slot `slot` of a shared tile holds the
/// cell of row `slot / 64` and column `slot % 64`, and the thread's elements walk
/// the tile along the operand's own storage.
pub proof fn law_a_slot_is_a_row_and_a_depth(transposed: bool, local: int)
    requires
        0 <= local < 4096,
    ensures
        ({
            let slot = tile_slot(staged_cell(transposed, local));
            &&& 0 <= slot < 4096
            &&& staged_cell(transposed, local) == (slot / 64, slot % 64)
            &&& transposed ==> local == 64 * (slot % 64) + slot / 64
            &&& !transposed ==> local == slot
        }),
{
    lemma_split_bounds(local, 64, 64);
    let cell = staged_cell(transposed, local);
    lemma_split(tile_slot(cell), 64, cell.0, cell.1);
}

/// Law: the operands and the product are stored row by row, an operand that is
/// stored transposed column by column.
pub proof fn law_operands_are_stored_row_by_row(
    shape: GemmShape,
    row: int,
    col: int,
    depth: int,
)
    ensures
        shape.a_element(false, row, depth) == shape.k * row + depth,
        shape.a_element(true, row, depth) == shape.m * depth + row,
        shape.b_element(false, depth, col) == shape.n * depth + col,
        shape.b_element(true, depth, col) == shape.k * col + depth,
        shape.c_element(row, col) == shape.n * row + col,
{
}

} // verus!
