//! Work items of the tensor-core product at its `[256, 128]` pair tile.
//!
//! A pair of blocks computes one item: each rank stages half the rows of `A`
//! and half the columns of `B`, the leading rank multiplies, and both drain
//! their half of the rows. The drain of an item is put off to the next one, so
//! that it runs beside the next multiply; two accumulator slots keep the two
//! apart.

use crate::arith::lemma_split;
use vstd::prelude::*;

verus! {

/// Rows one rank stages of `A` and drains of `C`.
pub const BLOCK_M: u32 = 128;

/// Rows of the pair tile.
pub const PAIR_M: u32 = 256;

/// Columns of the pair tile.
pub const BLOCK_N: u32 = 128;

/// Columns of `B` one rank stages.
pub const HALF_N: u32 = 64;

/// Depth of one stage.
pub const BLOCK_K: u32 = 64;

/// Stages of the operand ring.
pub const STAGES: u32 = 4;

/// Threads of a block: four drain warps, the producer and the issuer.
pub const THREADS: u32 = 192;

/// Warps that own a 32-row band of the accumulator.
pub const DRAIN_WARPS: u32 = 4;

/// The warp that copies operands in.
pub const PRODUCER: u32 = 4;

/// The warp that multiplies, on the leading rank.
pub const ISSUER: u32 = 5;

/// Columns of one drain pass.
pub const STAGE_N: u32 = 64;

/// Blocks of a cluster.
pub const CLUSTER_RANKS: u32 = 2;

/// The rank that multiplies.
pub const LEADER: u32 = 0;

/// Mask of both ranks.
pub const PAIR: u16 = 3;

/// Tensor-memory columns of a block: two accumulator slots.
pub const TMEM_COLUMNS: u32 = 256;

/// Width of the groups that items are dealt in.
pub const GROUP: u32 = 8;

/// What a thread does for an item.
#[derive(Clone, Copy, PartialEq, Eq, Structural, Debug)]
pub enum Role {
    /// Copies the item's operands in.
    Produce,
    /// Multiplies the item into its slot.
    Multiply,
    /// Drains the item before, then waits for this one to be multiplied.
    Drain,
    /// A lane of a one-thread warp that has nothing to do.
    Idle,
}

/// The role of a thread.
pub fn role(warp: u32, lane: u32, rank: u32) -> (chosen: Role)
    ensures
        chosen == if warp == PRODUCER {
            if lane == 0 {
                Role::Produce
            } else {
                Role::Idle
            }
        } else if warp == ISSUER {
            if rank == LEADER && lane == 0 {
                Role::Multiply
            } else {
                Role::Idle
            }
        } else {
            Role::Drain
        },
        chosen == Role::Drain <==> warp != 4 && warp != 5,
        chosen == Role::Produce <==> warp == 4 && lane == 0,
        chosen == Role::Multiply <==> warp == 5 && lane == 0 && rank == 0,
{
    if warp == PRODUCER {
        if lane == 0 {
            Role::Produce
        } else {
            Role::Idle
        }
    } else if warp == ISSUER {
        if rank == LEADER && lane == 0 {
            Role::Multiply
        } else {
            Role::Idle
        }
    } else {
        Role::Drain
    }
}

/// Coordinates, in a tensor map, of the boxes one rank loads for a stage.
#[derive(Clone, Copy, PartialEq, Eq, Structural, Debug)]
pub struct StageLoad {
    pub a_x: i32,
    pub a_y: i32,
    pub b_x: i32,
    pub b_y: i32,
}

/// First row of `A` that a rank stages for a tile.
pub open spec fn a_line(tile_m: int, rank: int) -> int {
    PAIR_M * tile_m + BLOCK_M * rank
}

/// First column of `B` that a rank stages for a tile.
pub open spec fn b_line(tile_n: int, rank: int) -> int {
    BLOCK_N * tile_n + HALF_N * rank
}

/// Where stage `k` of a tile's operands is loaded from. A K-major map has depth
/// along its first axis, an MN-major one along its second.
pub fn stage_load(tile_m: u32, tile_n: u32, rank: u32, k: u32, transposed: bool) -> (load: StageLoad)
    requires
        rank < CLUSTER_RANKS,
        PAIR_M * (tile_m + 1) <= i32::MAX,
        BLOCK_N * (tile_n + 1) <= i32::MAX,
        BLOCK_K * (k + 1) <= i32::MAX,
    ensures
        load == if transposed {
            StageLoad {
                a_x: a_line(tile_m as int, rank as int) as i32,
                a_y: (BLOCK_K * k) as i32,
                b_x: b_line(tile_n as int, rank as int) as i32,
                b_y: (BLOCK_K * k) as i32,
            }
        } else {
            StageLoad {
                a_x: (BLOCK_K * k) as i32,
                a_y: a_line(tile_m as int, rank as int) as i32,
                b_x: (BLOCK_K * k) as i32,
                b_y: b_line(tile_n as int, rank as int) as i32,
            }
        },
        (if transposed {
            (load.a_x, load.a_y)
        } else {
            (load.a_y, load.a_x)
        }) == ((256 * tile_m + 128 * rank) as i32, (64 * k) as i32),
        (if transposed {
            (load.b_x, load.b_y)
        } else {
            (load.b_y, load.b_x)
        }) == ((128 * tile_n + 64 * rank) as i32, (64 * k) as i32),
{
    let a: i32 = (PAIR_M * tile_m + BLOCK_M * rank) as i32;
    let b: i32 = (BLOCK_N * tile_n + HALF_N * rank) as i32;
    let depth: i32 = (BLOCK_K * k) as i32;
    if transposed {
        StageLoad { a_x: a, a_y: depth, b_x: b, b_y: depth }
    } else {
        StageLoad { a_x: depth, a_y: a, b_x: depth, b_y: b }
    }
}

/// Law: over the tiles and ranks, each row of `A` and each column of `B` is
/// staged by exactly one tile row and rank, or tile column and rank.
pub proof fn law_operand_lines_are_a_partition(line: int)
    requires
        0 <= line,
    ensures
        ({
            let (tile, rank) = (line / 256, (line % 256) / 128);
            &&& 0 <= rank < CLUSTER_RANKS
            &&& a_line(tile, rank) <= line < a_line(tile, rank) + BLOCK_M
        }),
        ({
            let (tile, rank) = (line / 128, (line % 128) / 64);
            &&& 0 <= rank < CLUSTER_RANKS
            &&& b_line(tile, rank) <= line < b_line(tile, rank) + HALF_N
        }),
        forall|t1: int, r1: int, t2: int, r2: int|
            #![trigger a_line(t1, r1), a_line(t2, r2)]
            0 <= r1 < 2 && 0 <= r2 < 2 && a_line(t1, r1) <= line < a_line(t1, r1) + BLOCK_M
                && a_line(t2, r2) <= line < a_line(t2, r2) + BLOCK_M ==> t1 == t2 && r1 == r2,
        forall|t1: int, r1: int, t2: int, r2: int|
            #![trigger b_line(t1, r1), b_line(t2, r2)]
            0 <= r1 < 2 && 0 <= r2 < 2 && b_line(t1, r1) <= line < b_line(t1, r1) + HALF_N
                && b_line(t2, r2) <= line < b_line(t2, r2) + HALF_N ==> t1 == t2 && r1 == r2,
{
}

/// Column of the accumulator slot of a parity.
pub open spec fn slot_of(parity: int) -> int {
    BLOCK_N * (parity % 2)
}

/// Column, within the block's tensor memory, of the slot of a parity.
pub fn slot(parity: u32) -> (column: u32)
    ensures
        column == slot_of(parity as int),
        column == 128 * (parity as int % 2),
        column + BLOCK_N <= TMEM_COLUMNS,
{
    if parity % 2 == 0 {
        0
    } else {
        BLOCK_N
    }
}

/// Row and column of `C` where a warp's band of a tile begins.
pub fn origin(tile_m: u32, tile_n: u32, rank: u32, warp: u32) -> (place: (u32, u32))
    requires
        rank < CLUSTER_RANKS,
        warp < DRAIN_WARPS,
        PAIR_M * (tile_m + 1) <= u32::MAX,
        BLOCK_N * (tile_n + 1) <= u32::MAX,
    ensures
        place.0 == a_line(tile_m as int, rank as int) + 32 * warp,
        place.1 == BLOCK_N * tile_n,
        place == ((256 * tile_m + 128 * rank + 32 * warp) as u32, (128 * tile_n) as u32),
{
    (PAIR_M * tile_m + BLOCK_M * rank + 32 * warp, BLOCK_N * tile_n)
}

/// The band of warp `warp` of rank `rank` of tile `(tile_m, tile_n)` holds
/// `C[row, column]`.
pub open spec fn band_holds(
    tile_m: int,
    tile_n: int,
    rank: int,
    warp: int,
    row: int,
    column: int,
) -> bool {
    &&& 0 <= rank < CLUSTER_RANKS
    &&& 0 <= warp < DRAIN_WARPS
    &&& a_line(tile_m, rank) + 32 * warp <= row < a_line(tile_m, rank) + 32 * warp + 32
    &&& BLOCK_N * tile_n <= column < BLOCK_N * tile_n + BLOCK_N
}

/// Law: every element of `C` is drained by exactly one warp of one rank of one
/// tile.
pub proof fn law_bands_are_a_partition(row: int, column: int)
    requires
        0 <= row,
        0 <= column,
    ensures
        band_holds(
            row / 256,
            column / 128,
            (row % 256) / 128,
            (row % 128) / 32,
            row,
            column,
        ),
        forall|
            m1: int,
            n1: int,
            r1: int,
            w1: int,
            m2: int,
            n2: int,
            r2: int,
            w2: int,
        |
            #![trigger band_holds(m1, n1, r1, w1, row, column), band_holds(m2, n2, r2, w2, row, column)]
            band_holds(m1, n1, r1, w1, row, column) && band_holds(m2, n2, r2, w2, row, column)
                ==> m1 == m2 && n1 == n2 && r1 == r2 && w1 == w2,
{
    lemma_place_has_a_band(row, column);
    assert forall|
        m1: int,
        n1: int,
        r1: int,
        w1: int,
        m2: int,
        n2: int,
        r2: int,
        w2: int,
    |
        #![trigger band_holds(m1, n1, r1, w1, row, column), band_holds(m2, n2, r2, w2, row, column)]
        band_holds(m1, n1, r1, w1, row, column) && band_holds(
            m2,
            n2,
            r2,
            w2,
            row,
            column,
        ) implies m1 == m2 && n1 == n2 && r1 == r2 && w1 == w2 by {
        lemma_band_is_determined(m1, n1, r1, w1, row, column);
        lemma_band_is_determined(m2, n2, r2, w2, row, column);
    }
}

proof fn lemma_place_has_a_band(row: int, column: int)
    requires
        0 <= row,
        0 <= column,
    ensures
        band_holds(
            row / 256,
            column / 128,
            (row % 256) / 128,
            (row % 128) / 32,
            row,
            column,
        ),
{
    let pair = row / 256;
    let within = row % 256;
    let rank = within / 128;
    let rest = within % 128;
    lemma_split(row, 128, 2 * pair + rank, rest);
    assert(row == 256 * pair + 128 * rank + 32 * (rest / 32) + rest % 32);
}

proof fn lemma_band_is_determined(m: int, n: int, r: int, w: int, row: int, column: int)
    requires
        band_holds(m, n, r, w, row, column),
    ensures
        m == row / 256,
        n == column / 128,
        r == (row % 256) / 128,
        w == (row % 128) / 32,
{
    let within = row - 256 * m - 128 * r - 32 * w;
    lemma_split(row, 256, m, 128 * r + 32 * w + within);
    lemma_split(row, 128, 2 * m + r, 32 * w + within);
    lemma_split(column, 128, n, column - 128 * n);
}

/// Row and column, within a band, of pass `pass` of the reducing drain: sixteen
/// rows by 64 columns each, the upper half of the band first.
pub fn reduce_pass(pass: u32) -> (place: (u32, u32))
    requires
        pass < 4,
    ensures
        place.0 == 16 * (pass as int / 2),
        place.1 == 64 * (pass as int % 2),
{
    (16 * (pass / 2), STAGE_N * (pass % 2))
}

/// Law: the four passes of the reducing drain tile a `[32, 128]` band.
pub proof fn law_reduce_passes_tile_the_band(row: int, column: int)
    requires
        0 <= row < 32,
        0 <= column < BLOCK_N,
    ensures
        exists|pass: int|
            #![trigger in_pass(pass, row, column)]
            in_pass(pass, row, column),
        forall|p: int, q: int|
            #![trigger in_pass(p, row, column), in_pass(q, row, column)]
            in_pass(p, row, column) && in_pass(q, row, column) ==> p == q,
{
    assert(in_pass(2 * (row / 16) + column / 64, row, column));
}

/// Pass `pass` holds a place of the band.
pub open spec fn in_pass(pass: int, row: int, column: int) -> bool {
    &&& 0 <= pass < 4
    &&& 16 * (pass / 2) <= row < 16 * (pass / 2) + 16
    &&& 64 * (pass % 2) <= column < 64 * (pass % 2) + 64
}

/// Whether a launch mode adds to `C` rather than overwrite it.
pub fn folds(mode: u32) -> (fold: bool)
    ensures
        fold == (mode % 2 == 1),
{
    mode % 2 == 1
}

/// An item to drain, and the column of the slot it was multiplied into.
#[derive(Clone, Copy, PartialEq, Eq, Structural, Debug)]
pub struct DrainStep {
    pub item: u32,
    pub column: u32,
}

/// What a cluster does while it works on one item.
#[derive(Clone, Copy, PartialEq, Eq, Structural, Debug)]
pub struct WorkStep {
    /// Column of the slot the item is multiplied into.
    pub multiply_column: u32,
    /// The item before, if there was one.
    pub drain: Option<DrainStep>,
}

/// The deferred drain: which item is still in tensor memory, and how many items
/// the cluster has started.
#[derive(Clone, Copy, PartialEq, Eq, Structural, Debug)]
pub struct DeferredDrain {
    /// The item not yet drained, plus one; 0 before the first.
    pub pending: u32,
    /// Items started. Its parity picks the slot: an item's own number would
    /// not do, as a cluster's items are an even stride apart.
    pub cycle: u32,
}

impl DeferredDrain {
    /// The item that is still to be drained.
    pub open spec fn outstanding(self) -> Option<DrainStep> {
        if self.pending == 0 {
            None
        } else {
            Some(
                DrainStep {
                    item: (self.pending - 1) as u32,
                    column: slot_of(self.cycle + 1) as u32,
                },
            )
        }
    }

    /// The state after working on `item`.
    pub open spec fn worked(self, item: u32) -> DeferredDrain {
        DeferredDrain { pending: (item + 1) as u32, cycle: (self.cycle + 1) as u32 }
    }

    /// No item started.
    pub fn new() -> (state: DeferredDrain)
        ensures
            state.pending == 0,
            state.cycle == 0,
    {
        DeferredDrain { pending: 0, cycle: 0 }
    }

    /// Starts `item`: where to multiply it, and which item to drain meanwhile.
    pub fn work(&mut self, item: u32) -> (step: WorkStep)
        requires
            item < u32::MAX,
            old(self).cycle + 1 < u32::MAX,
        ensures
            *final(self) == old(self).worked(item),
            step.multiply_column == slot_of(old(self).cycle as int),
            step.drain == old(self).outstanding(),
            step.multiply_column == 128 * (old(self).cycle as int % 2),
            step.drain is Some <==> old(self).pending != 0,
            step.drain is Some ==> step.drain->0.item + 1 == old(self).pending,
            step.drain is Some ==> step.drain->0.column + step.multiply_column == 128,
            final(self).pending == item + 1,
            final(self).cycle == old(self).cycle + 1,
    {
        let multiply_column: u32 = slot(self.cycle);
        let drain: Option<DrainStep> = if self.pending != 0 {
            Some(DrainStep { item: self.pending - 1, column: slot(self.cycle + 1) })
        } else {
            None
        };
        self.pending = item + 1;
        self.cycle = self.cycle + 1;
        WorkStep { multiply_column, drain }
    }

    /// The item to drain once no more are to be started.
    pub fn drain_last(&self) -> (step: Option<DrainStep>)
        requires
            self.cycle < u32::MAX,
        ensures
            step == self.outstanding(),
            step is Some <==> self.pending != 0,
            step is Some ==> step->0.item + 1 == self.pending,
            step is Some ==> step->0.column == 128 * ((self.cycle + 1) % 2),
    {
        if self.pending != 0 {
            Some(DrainStep { item: self.pending - 1, column: slot(self.cycle + 1) })
        } else {
            None
        }
    }
}

/// The state after a run of items.
pub open spec fn state_after(items: Seq<u32>) -> DeferredDrain
    decreases items.len(),
{
    if items.len() == 0 {
        DeferredDrain { pending: 0, cycle: 0 }
    } else {
        state_after(items.drop_last()).worked(items.last())
    }
}

/// The items drained while a run of items is worked on.
pub open spec fn drained(items: Seq<u32>) -> Seq<u32>
    decreases items.len(),
{
    if items.len() == 0 {
        Seq::empty()
    } else {
        let before = items.drop_last();
        match state_after(before).outstanding() {
            Some(step) => drained(before).push(step.item),
            None => drained(before),
        }
    }
}

/// Law: every item is drained exactly once and in order. Working on a run drains
/// all of its items but the last, and what is left outstanding is the last.
pub proof fn law_every_item_is_drained_once(items: Seq<u32>)
    requires
        items.len() < u32::MAX,
        forall|i: int| 0 <= i < items.len() ==> #[trigger] items[i] < u32::MAX,
    ensures
        items.len() == 0 ==> state_after(items).outstanding() is None,
        items.len() > 0 ==> drained(items) == items.drop_last(),
        items.len() > 0 ==> state_after(items).outstanding() is Some
            && state_after(items).outstanding().unwrap().item == items.last(),
        state_after(items).cycle == items.len(),
    decreases items.len(),
{
    if items.len() > 0 {
        let before = items.drop_last();
        assert(items.last() == items[items.len() - 1]);
        assert forall|i: int| 0 <= i < before.len() implies #[trigger] before[i] < u32::MAX by {
            assert(before[i] == items[i]);
        }
        law_every_item_is_drained_once(before);
        reveal_with_fuel(drained, 2);
        if before.len() > 0 {
            assert(drained(items) =~= items.drop_last()) by {
                assert(before =~= before.drop_last().push(before.last()));
            }
        } else {
            assert(drained(items) =~= items.drop_last());
        }
    }
}

/// Law: an item is drained from the slot it was multiplied into, and never from
/// the one that is being multiplied into meanwhile.
pub proof fn law_drain_reads_the_multiplied_slot(state: DeferredDrain, item: u32, next: u32)
    requires
        item < u32::MAX,
        next < u32::MAX,
        state.cycle + 2 < u32::MAX,
    ensures
        ({
            let multiplied = slot_of(state.cycle as int);
            let after = state.worked(item);
            &&& after.outstanding() == Some(DrainStep { item, column: multiplied as u32 })
            &&& slot_of(after.cycle as int) != multiplied
            &&& slot_of(after.cycle as int) + BLOCK_N <= multiplied || multiplied + BLOCK_N
                <= slot_of(after.cycle as int)
        }),
{
}

/// Law: two blocks of this tile fit a multiprocessor exactly: their accumulator
/// slots take all its tensor memory and their plans fit its shared memory.
pub proof fn law_two_blocks_fit()
    ensures
        2 * TMEM_COLUMNS == crate::flash::host::SM_TMEM_COLUMNS,
        2 * crate::gemm::host::SHARED_BYTES <= crate::flash::host::SM_SHARED_BYTES,
        STAGES * (BLOCK_M * BLOCK_K + HALF_N * BLOCK_K) * 2 + DRAIN_WARPS * 32 * STAGE_N * 2
            <= crate::gemm::host::SHARED_BYTES,
{
}

/// Law: a block is four warps that drain, one that copies and one that multiplies,
/// and a pair of blocks multiplies on its first.
pub proof fn law_a_block_is_its_six_warps()
    ensures
        DRAIN_WARPS == 4,
        PRODUCER == DRAIN_WARPS,
        ISSUER == PRODUCER + 1,
        THREADS == 32 * (ISSUER + 1),
        CLUSTER_RANKS == 2,
        LEADER == 0,
        PAIR == 3,
        32 * DRAIN_WARPS == BLOCK_M,
        CLUSTER_RANKS * BLOCK_M == PAIR_M,
        CLUSTER_RANKS * HALF_N == BLOCK_N,
        2 * BLOCK_N == TMEM_COLUMNS,
{
}

/// Law: the two slots of a pair of successive items are the two halves of the
/// block's tensor memory, and a cluster's every second item has the same one.
pub proof fn law_slots_alternate(parity: int)
    requires
        0 <= parity,
    ensures
        slot_of(2 * parity) == 0,
        slot_of(2 * parity + 1) == 128,
{
}

/// Law: a rank's lines of a tile begin where the lines before them end: the second
/// rank 128 rows of `A` and 64 columns of `B` after the first, and the next tile
/// where the pair's end.
pub proof fn law_lines_follow_one_another(tile: int)
    ensures
        a_line(0, 0) == 0,
        b_line(0, 0) == 0,
        a_line(tile, 1) == a_line(tile, 0) + 128,
        a_line(tile + 1, 0) == a_line(tile, 1) + 128,
        b_line(tile, 1) == b_line(tile, 0) + 64,
        b_line(tile + 1, 0) == b_line(tile, 1) + 64,
{
}

/// Law: a state knows what is outstanding by itself: nothing before the first
/// item, and afterwards the item last started, in the slot that the next item
/// does not use.
pub proof fn law_what_is_outstanding_was_started_last(state: DeferredDrain, item: u32)
    requires
        item < u32::MAX,
        state.cycle + 1 < u32::MAX,
    ensures
        state.outstanding() is None <==> state.pending == 0,
        state.worked(item).pending == item + 1,
        state.worked(item).cycle == state.cycle + 1,
        ({
            let left = state.worked(item).outstanding();
            &&& left is Some
            &&& left->0.item == item
            &&& left->0.column == 128 * (state.cycle as int % 2)
        }),
{
}

/// Law: the passes of a band go left to right in its upper half, then in its lower.
pub proof fn law_passes_are_quarters(pass: int, row: int, column: int)
    ensures
        in_pass(pass, row, column) <==> 0 <= pass < 4 && 0 <= row < 32 && 0 <= column < 128 && pass
            == 2 * (row / 16) + column / 64,
{
}

} // verus!
