//! Work items of the tensor-core attention kernels.
//!
//! A persistent grid deals the items of a launch to its blocks. One item is a
//! 128-row block of one `(batch, head)` plane: query rows for the forward and
//! for dQ, key rows for dK and dV.

use crate::arith::{
    lemma_div_monotone, lemma_join_bounds, lemma_join_injective, lemma_mul_monotone, lemma_split,
    lemma_split_bounds,
};
use vstd::prelude::*;

verus! {

/// Rows of one streamed tile.
pub const TILE: u32 = 64;

/// Columns of one head.
pub const HD: u32 = 128;

/// Rows one block owns: two stacked tiles, a whole 128-row accumulator.
pub const QUERIES: u32 = 128;

/// Rows one warp owns of a block's accumulator.
pub const WARP_ROWS: u32 = 32;

/// Warps that run the register pass: the accumulator's 128 rows, 32 a warp.
pub const PASS_WARPS: u32 = 4;

/// The warp of the backward kernels that issues every copy and every multiply.
pub const ISSUE_WARP: u32 = PASS_WARPS;

/// The shape one attention launch runs over.
#[derive(Clone, Copy, PartialEq, Eq, Structural, Debug)]
pub struct AttentionGrid {
    pub sequence_length: u32,
    pub heads: u32,
    pub batches: u32,
}

/// One item of a query-parallel kernel.
#[derive(Clone, Copy, PartialEq, Eq, Structural, Debug)]
pub struct QueryItem {
    pub query_block: u32,
    pub plane: u32,
    pub head: u32,
    pub batch: u32,
    /// First query row of the block within its sequence.
    pub query_base: u32,
    /// Key tiles the block streams.
    pub key_tiles: u32,
    /// First key tile that crosses the diagonal.
    pub first_masked: u32,
}

/// One item of the key-parallel kernel.
#[derive(Clone, Copy, PartialEq, Eq, Structural, Debug)]
pub struct KeyItem {
    pub key_block: u32,
    pub plane: u32,
    pub head: u32,
    pub batch: u32,
    /// First key row of the block within its sequence.
    pub key_base: u32,
    /// Query tiles the block streams.
    pub steps: u32,
}

impl AttentionGrid {
    /// 128-row blocks of one sequence.
    pub open spec fn tiles(self) -> int {
        self.sequence_length as int / QUERIES as int
    }

    /// `(batch, head)` pairs.
    pub open spec fn planes(self) -> int {
        self.heads * self.batches
    }

    /// Work items of a launch.
    pub open spec fn items(self) -> int {
        self.tiles() * self.planes()
    }

    /// Whole blocks, and every count and row index the kernels form fits their
    /// 32-bit registers. A grid with no head or no batch has no items.
    pub open spec fn well_formed(self) -> bool {
        &&& self.sequence_length % QUERIES == 0
        &&& self.planes() <= u32::MAX
        &&& self.items() <= u32::MAX
        &&& self.batches * self.sequence_length <= u32::MAX
    }

    /// The plane of one head of one batch.
    pub open spec fn plane_of(self, batch: int, head: int) -> int {
        self.heads * batch + head
    }

    /// The query block that item number `item` owns: the last block first.
    pub open spec fn query_block(self, item: int) -> int {
        self.tiles() - 1 - item / self.planes()
    }

    /// The key block that item number `item` owns: the first block first.
    pub open spec fn key_block(self, item: int) -> int {
        item / self.planes()
    }

    /// The plane that item number `item` belongs to.
    pub open spec fn plane(self, item: int) -> int {
        item % self.planes()
    }

    /// The number of the item that owns a query block of a plane.
    pub open spec fn query_item_number(self, block: int, plane: int) -> int {
        self.planes() * (self.tiles() - 1 - block) + plane
    }

    /// The number of the item that owns a key block of a plane.
    pub open spec fn key_item_number(self, block: int, plane: int) -> int {
        self.planes() * block + plane
    }

    /// Number of work items, the bound of the persistent loop.
    pub fn item_count(&self) -> (count: u32)
        requires
            self.well_formed(),
        ensures
            count == self.items(),
            count == (self.sequence_length as int / 128) * (self.heads * self.batches),
    {
        (self.sequence_length / QUERIES) * (self.heads * self.batches)
    }

    /// Decodes one item of a query-parallel kernel.
    pub fn query_item(&self, item: u32) -> (decoded: QueryItem)
        requires
            self.well_formed(),
            item < self.items(),
        ensures
            decoded.query_block == self.query_block(item as int),
            decoded.query_block + item as int / (self.heads * self.batches) + 1
                == self.sequence_length as int / 128,
            decoded.plane == self.plane(item as int),
            decoded.plane == item as int % (self.heads * self.batches),
            decoded.head == decoded.plane % self.heads,
            decoded.batch == decoded.plane / self.heads,
            decoded.query_base == QUERIES * decoded.query_block,
            decoded.query_base == 128 * decoded.query_block,
            decoded.key_tiles == 2 * decoded.query_block + 2,
            decoded.first_masked == 2 * decoded.query_block,
            decoded.query_base + QUERIES <= self.sequence_length,
            decoded.head < self.heads,
            decoded.batch < self.batches,
            decoded.consistent(),
    {
        proof {
            self.lemma_item_bounds(item as int);
        }
        let tiles: u32 = self.sequence_length / QUERIES;
        let planes: u32 = self.heads * self.batches;
        let query_block: u32 = tiles - 1 - item / planes;
        let plane: u32 = item % planes;
        QueryItem {
            query_block,
            plane,
            head: plane % self.heads,
            batch: plane / self.heads,
            query_base: query_block * QUERIES,
            key_tiles: 2 * query_block + 2,
            first_masked: 2 * query_block,
        }
    }

    /// Decodes one item of the key-parallel kernel.
    pub fn key_item(&self, item: u32) -> (decoded: KeyItem)
        requires
            self.well_formed(),
            item < self.items(),
        ensures
            decoded.key_block == self.key_block(item as int),
            decoded.key_block == item as int / (self.heads * self.batches),
            decoded.plane == self.plane(item as int),
            decoded.plane == item as int % (self.heads * self.batches),
            decoded.head == decoded.plane % self.heads,
            decoded.batch == decoded.plane / self.heads,
            decoded.key_base == QUERIES * decoded.key_block,
            decoded.key_base == 128 * decoded.key_block,
            decoded.steps == 2 * (self.tiles() - decoded.key_block),
            decoded.key_base + 64 * decoded.steps == self.sequence_length,
            decoded.key_base + QUERIES <= self.sequence_length,
            decoded.head < self.heads,
            decoded.batch < self.batches,
            decoded.consistent(),
    {
        proof {
            self.lemma_item_bounds(item as int);
        }
        let tiles: u32 = self.sequence_length / QUERIES;
        let planes: u32 = self.heads * self.batches;
        let key_block: u32 = item / planes;
        let plane: u32 = item % planes;
        KeyItem {
            key_block,
            plane,
            head: plane % self.heads,
            batch: plane / self.heads,
            key_base: key_block * QUERIES,
            steps: 2 * (tiles - key_block),
        }
    }

    /// Every part of a decoded item is in range.
    pub proof fn lemma_item_bounds(self, item: int)
        requires
            self.well_formed(),
            0 <= item < self.items(),
        ensures
            0 < self.planes(),
            0 <= item / self.planes() < self.tiles(),
            0 <= self.query_block(item) < self.tiles(),
            0 <= self.key_block(item) < self.tiles(),
            0 <= self.plane(item) < self.planes(),
            0 <= self.plane(item) % self.heads as int,
            self.plane(item) % (self.heads as int) < self.heads,
            0 <= self.plane(item) / self.heads as int,
            self.plane(item) / (self.heads as int) < self.batches,
            QUERIES * self.tiles() == self.sequence_length,
    {
        let planes = self.planes();
        assert(0 < planes && 0 < self.heads) by (nonlinear_arith)
            requires
                planes == self.heads * self.batches,
                0 < self.tiles() * planes,
                0 <= self.tiles(),
        ;
        assert(self.tiles() * planes == planes * self.tiles()) by (nonlinear_arith);
        lemma_split_bounds(item, planes, self.tiles());
        lemma_split_bounds(self.plane(item), self.heads as int, self.batches as int);
    }

    /// Law: the items of a query-parallel launch are one to one with its
    /// `(query block, batch, head)` triples.
    pub proof fn law_query_items_are_a_bijection(self)
        requires
            self.well_formed(),
        ensures
            forall|item: int|
                0 <= item < self.items() ==> #[trigger] self.query_item_number(
                    self.query_block(item),
                    self.plane(item),
                ) == item,
            forall|block: int, batch: int, head: int|
                #![trigger self.query_item_number(block, self.plane_of(batch, head))]
                0 <= block < self.tiles() && 0 <= batch < self.batches && 0 <= head < self.heads
                    ==> {
                    let item = self.query_item_number(block, self.plane_of(batch, head));
                    &&& 0 <= item < self.items()
                    &&& self.query_block(item) == block
                    &&& self.plane(item) % (self.heads as int) == head
                    &&& self.plane(item) / (self.heads as int) == batch
                },
    {
        let planes = self.planes();
        let tiles = self.tiles();
        assert(tiles * planes == planes * tiles) by (nonlinear_arith);
        assert forall|item: int| 0 <= item < self.items() implies #[trigger] self.query_item_number(
            self.query_block(item),
            self.plane(item),
        ) == item by {
            self.lemma_item_bounds(item);
            lemma_split_bounds(item, planes, tiles);
        }
        assert forall|block: int, batch: int, head: int|
            #![trigger self.query_item_number(block, self.plane_of(batch, head))]
            0 <= block < tiles && 0 <= batch < self.batches && 0 <= head < self.heads implies {
            let item = self.query_item_number(block, self.plane_of(batch, head));
            &&& 0 <= item < self.items()
            &&& self.query_block(item) == block
            &&& self.plane(item) % (self.heads as int) == head
            &&& self.plane(item) / (self.heads as int) == batch
        } by {
            let plane = self.plane_of(batch, head);
            let item = self.query_item_number(block, plane);
            lemma_join_bounds(batch, head, self.heads as int, self.batches as int);
            lemma_join_bounds(tiles - 1 - block, plane, planes, tiles);
            lemma_split(item, planes, tiles - 1 - block, plane);
            lemma_split(plane, self.heads as int, batch, head);
        }
    }

    /// Law: the items of a key-parallel launch are one to one with its
    /// `(key block, batch, head)` triples.
    pub proof fn law_key_items_are_a_bijection(self)
        requires
            self.well_formed(),
        ensures
            forall|item: int|
                0 <= item < self.items() ==> #[trigger] self.key_item_number(
                    self.key_block(item),
                    self.plane(item),
                ) == item,
            forall|block: int, batch: int, head: int|
                #![trigger self.key_item_number(block, self.plane_of(batch, head))]
                0 <= block < self.tiles() && 0 <= batch < self.batches && 0 <= head < self.heads
                    ==> {
                    let item = self.key_item_number(block, self.plane_of(batch, head));
                    &&& 0 <= item < self.items()
                    &&& self.key_block(item) == block
                    &&& self.plane(item) % (self.heads as int) == head
                    &&& self.plane(item) / (self.heads as int) == batch
                },
    {
        let planes = self.planes();
        let tiles = self.tiles();
        assert(tiles * planes == planes * tiles) by (nonlinear_arith);
        assert forall|item: int| 0 <= item < self.items() implies #[trigger] self.key_item_number(
            self.key_block(item),
            self.plane(item),
        ) == item by {
            self.lemma_item_bounds(item);
            lemma_split_bounds(item, planes, tiles);
        }
        assert forall|block: int, batch: int, head: int|
            #![trigger self.key_item_number(block, self.plane_of(batch, head))]
            0 <= block < tiles && 0 <= batch < self.batches && 0 <= head < self.heads implies {
            let item = self.key_item_number(block, self.plane_of(batch, head));
            &&& 0 <= item < self.items()
            &&& self.key_block(item) == block
            &&& self.plane(item) % (self.heads as int) == head
            &&& self.plane(item) / (self.heads as int) == batch
        } by {
            let plane = self.plane_of(batch, head);
            let item = self.key_item_number(block, plane);
            lemma_join_bounds(batch, head, self.heads as int, self.batches as int);
            lemma_join_bounds(block, plane, planes, tiles);
            lemma_split(item, planes, block, plane);
            lemma_split(plane, self.heads as int, batch, head);
        }
    }

    /// Law: both kernels deal the longest streams first. An earlier item never
    /// streams fewer tiles than a later one.
    pub proof fn law_longest_streams_first(self, earlier: int, later: int)
        requires
            self.well_formed(),
            0 <= earlier <= later < self.items(),
        ensures
            2 * self.query_block(earlier) + 2 >= 2 * self.query_block(later) + 2,
            2 * (self.tiles() - self.key_block(earlier)) >= 2 * (self.tiles() - self.key_block(
                later,
            )),
    {
        self.lemma_item_bounds(earlier);
        lemma_div_monotone(earlier, later, self.planes());
    }
}

/// Global row of the first of the 32 rows a warp owns in a block.
pub open spec fn band_row(grid: AttentionGrid, batch: int, base: int, warp: int) -> int {
    batch * grid.sequence_length + base + WARP_ROWS * warp
}

/// Global row of the first of the 32 rows that warp `warp` of a block drains
/// and writes; `base` is the block's first row within its sequence.
pub fn band_origin(grid: &AttentionGrid, batch: u32, base: u32, warp: u32) -> (row: u32)
    requires
        grid.well_formed(),
        batch < grid.batches,
        base + QUERIES <= grid.sequence_length,
        warp < PASS_WARPS,
    ensures
        row == band_row(*grid, batch as int, base as int, warp as int),
        row == batch * grid.sequence_length + base + 32 * warp,
        row + WARP_ROWS <= grid.batches * grid.sequence_length,
{
    proof {
        lemma_mul_monotone(batch + 1, grid.batches as int, grid.sequence_length as int);
        assert((batch + 1) * grid.sequence_length == batch * grid.sequence_length
            + grid.sequence_length) by (nonlinear_arith);
        assert(0 <= batch * grid.sequence_length) by (nonlinear_arith);
    }
    batch * grid.sequence_length + base + WARP_ROWS * warp
}

/// Row `offset` of the band that warp `warp` drains in the block `block` of
/// `batch` is `row`.
pub open spec fn owns_row(
    grid: AttentionGrid,
    batch: int,
    block: int,
    warp: int,
    offset: int,
    row: int,
) -> bool {
    &&& 0 <= batch < grid.batches
    &&& 0 <= block < grid.tiles()
    &&& 0 <= warp < PASS_WARPS
    &&& 0 <= offset < WARP_ROWS
    &&& row == band_row(grid, batch, QUERIES * block, warp) + offset
}

/// The bands of a launch's blocks tile its rows.
proof fn lemma_each_row_has_one_band(grid: AttentionGrid, row: int)
    requires
        grid.well_formed(),
        0 <= row < grid.batches * grid.sequence_length,
    ensures
        exists|batch: int, block: int, warp: int, offset: int|
            #![trigger owns_row(grid, batch, block, warp, offset, row)]
            owns_row(grid, batch, block, warp, offset, row),
        forall|b1: int, k1: int, w1: int, o1: int, b2: int, k2: int, w2: int, o2: int|
            #![trigger owns_row(grid, b1, k1, w1, o1, row), owns_row(grid, b2, k2, w2, o2, row)]
            owns_row(grid, b1, k1, w1, o1, row) && owns_row(grid, b2, k2, w2, o2, row) ==> b1 == b2
                && k1 == k2 && w1 == w2 && o1 == o2,
{
    let t = grid.sequence_length as int;
    assert(grid.batches * grid.sequence_length == t * grid.batches) by (nonlinear_arith)
        requires
            t == grid.sequence_length,
    ;
    assert(0 < t) by (nonlinear_arith)
        requires
            0 <= row < t * grid.batches,
            0 <= t,
    ;
    lemma_split_bounds(row, t, grid.batches as int);
    let batch = row / t;
    let place = row % t;
    lemma_split_bounds(place, 128, grid.tiles());
    let block = place / 128;
    let within = place % 128;
    assert(batch * grid.sequence_length == t * batch) by (nonlinear_arith)
        requires
            t == grid.sequence_length,
    ;
    assert(owns_row(grid, batch, block, within / 32, within % 32, row));
    assert forall|b1: int, k1: int, w1: int, o1: int, b2: int, k2: int, w2: int, o2: int|
        #![trigger owns_row(grid, b1, k1, w1, o1, row), owns_row(grid, b2, k2, w2, o2, row)]
        owns_row(grid, b1, k1, w1, o1, row) && owns_row(grid, b2, k2, w2, o2, row) implies b1 == b2
        && k1 == k2 && w1 == w2 && o1 == o2 by {
        let p1 = 128 * k1 + 32 * w1 + o1;
        let p2 = 128 * k2 + 32 * w2 + o2;
        assert(b1 * t == t * b1 && b2 * t == t * b2) by (nonlinear_arith);
        lemma_join_injective(t, b1, p1, b2, p2);
        lemma_join_injective(128, k1, 32 * w1 + o1, k2, 32 * w2 + o2);
    }
}

/// The block that item number `item` owns: of queries, or of keys where the
/// launch is key-parallel.
pub open spec fn block_of(grid: AttentionGrid, by_keys: bool, item: int) -> int {
    if by_keys {
        grid.key_block(item)
    } else {
        grid.query_block(item)
    }
}

/// Row `offset` and feature `feature` of the band that warp `warp` drains in
/// item number `item` is what writes the output's element in `row` and `column`.
pub open spec fn writes_element(
    grid: AttentionGrid,
    by_keys: bool,
    item: int,
    warp: int,
    offset: int,
    feature: int,
    row: int,
    column: int,
) -> bool {
    let plane = grid.plane(item);
    &&& 0 <= item < grid.items()
    &&& 0 <= feature < HD
    &&& owns_row(
        grid,
        plane / grid.heads as int,
        block_of(grid, by_keys, item),
        warp,
        offset,
        row,
    )
    &&& column == HD * (plane % grid.heads as int) + feature
}

/// Row `offset` of the band that warp `warp` drains in item number `item` of a
/// query-parallel launch is what writes the statistic `word`.
pub open spec fn writes_statistic(
    grid: AttentionGrid,
    item: int,
    warp: int,
    offset: int,
    word: int,
) -> bool {
    let plane = grid.plane(item);
    let block = grid.query_block(item);
    let batch = plane / grid.heads as int;
    let row = band_row(grid, batch, QUERIES * block, warp) + offset;
    &&& 0 <= item < grid.items()
    &&& owns_row(grid, batch, block, warp, offset, row)
    &&& word == grid.heads * row + plane % grid.heads as int
}

/// An item is known by its block, its batch and its head.
proof fn lemma_item_is_its_parts(grid: AttentionGrid, by_keys: bool, first: int, second: int)
    requires
        grid.well_formed(),
        0 <= first < grid.items(),
        0 <= second < grid.items(),
        block_of(grid, by_keys, first) == block_of(grid, by_keys, second),
        grid.plane(first) / grid.heads as int == grid.plane(second) / grid.heads as int,
        grid.plane(first) % grid.heads as int == grid.plane(second) % grid.heads as int,
    ensures
        first == second,
{
    grid.lemma_item_bounds(first);
    grid.lemma_item_bounds(second);
    assert(grid.tiles() * grid.planes() == grid.planes() * grid.tiles()) by (nonlinear_arith);
    lemma_split_bounds(grid.plane(first), grid.heads as int, grid.batches as int);
    lemma_split_bounds(grid.plane(second), grid.heads as int, grid.batches as int);
    lemma_split_bounds(first, grid.planes(), grid.tiles());
    lemma_split_bounds(second, grid.planes(), grid.tiles());
}

/// There is an item for every block of every head of every batch.
proof fn lemma_parts_have_an_item(
    grid: AttentionGrid,
    by_keys: bool,
    block: int,
    batch: int,
    head: int,
) -> (item: int)
    requires
        grid.well_formed(),
        0 <= block < grid.tiles(),
        0 <= batch < grid.batches,
        0 <= head < grid.heads,
    ensures
        0 <= item < grid.items(),
        block_of(grid, by_keys, item) == block,
        grid.plane(item) / grid.heads as int == batch,
        grid.plane(item) % grid.heads as int == head,
{
    let plane = grid.plane_of(batch, head);
    if by_keys {
        grid.law_key_items_are_a_bijection();
        grid.key_item_number(block, plane)
    } else {
        grid.law_query_items_are_a_bijection();
        grid.query_item_number(block, plane)
    }
}

/// Law: over all items of a launch, each element of a `[rows, heads * 128]`
/// output is written by exactly one item, as one row and feature of one warp's
/// band, whether the launch is query-parallel or key-parallel.
pub proof fn law_each_output_element_has_one_writer(
    grid: AttentionGrid,
    by_keys: bool,
    row: int,
    column: int,
)
    requires
        grid.well_formed(),
        0 <= row < grid.batches * grid.sequence_length,
        0 <= column < HD * grid.heads,
    ensures
        exists|item: int, warp: int, offset: int, feature: int|
            #![trigger writes_element(grid, by_keys, item, warp, offset, feature, row, column)]
            writes_element(grid, by_keys, item, warp, offset, feature, row, column),
        forall|i1: int, w1: int, o1: int, f1: int, i2: int, w2: int, o2: int, f2: int|
            #![trigger writes_element(grid, by_keys, i1, w1, o1, f1, row, column), writes_element(grid, by_keys, i2, w2, o2, f2, row, column)]
            writes_element(grid, by_keys, i1, w1, o1, f1, row, column) && writes_element(
                grid,
                by_keys,
                i2,
                w2,
                o2,
                f2,
                row,
                column,
            ) ==> i1 == i2 && w1 == w2 && o1 == o2 && f1 == f2,
{
    lemma_each_row_has_one_band(grid, row);
    lemma_split_bounds(column, 128, grid.heads as int);
    let (batch, block, warp, offset) = choose|batch: int, block: int, warp: int, offset: int|
        #![trigger owns_row(grid, batch, block, warp, offset, row)]
        owns_row(grid, batch, block, warp, offset, row);
    assert(owns_row(grid, batch, block, warp, offset, row));
    let item = lemma_parts_have_an_item(grid, by_keys, block, batch, column / 128);
    assert(writes_element(grid, by_keys, item, warp, offset, column % 128, row, column));
    assert forall|i1: int, w1: int, o1: int, f1: int, i2: int, w2: int, o2: int, f2: int|
        #![trigger writes_element(grid, by_keys, i1, w1, o1, f1, row, column), writes_element(grid, by_keys, i2, w2, o2, f2, row, column)]
        writes_element(grid, by_keys, i1, w1, o1, f1, row, column) && writes_element(
            grid,
            by_keys,
            i2,
            w2,
            o2,
            f2,
            row,
            column,
        ) implies i1 == i2 && w1 == w2 && o1 == o2 && f1 == f2 by {
        let h = grid.heads as int;
        let (p1, p2) = (grid.plane(i1), grid.plane(i2));
        assert(owns_row(grid, p1 / h, block_of(grid, by_keys, i1), w1, o1, row));
        assert(owns_row(grid, p2 / h, block_of(grid, by_keys, i2), w2, o2, row));
        lemma_join_injective(128, p1 % h, f1, p2 % h, f2);
        lemma_item_is_its_parts(grid, by_keys, i1, i2);
    }
}

/// Law: over all items of a query-parallel launch, each of the `(row, head)`
/// statistics is written by exactly one item, as one row of one warp's band.
pub proof fn law_each_statistic_has_one_writer(grid: AttentionGrid, word: int)
    requires
        grid.well_formed(),
        0 <= word < grid.heads * (grid.batches * grid.sequence_length),
    ensures
        exists|item: int, warp: int, offset: int|
            #![trigger writes_statistic(grid, item, warp, offset, word)]
            writes_statistic(grid, item, warp, offset, word),
        forall|i1: int, w1: int, o1: int, i2: int, w2: int, o2: int|
            #![trigger writes_statistic(grid, i1, w1, o1, word), writes_statistic(grid, i2, w2, o2, word)]
            writes_statistic(grid, i1, w1, o1, word) && writes_statistic(grid, i2, w2, o2, word)
                ==> i1 == i2 && w1 == w2 && o1 == o2,
{
    let h = grid.heads as int;
    let rows = grid.batches * grid.sequence_length;
    assert(0 < h) by (nonlinear_arith)
        requires
            0 < h * rows,
            0 <= h,
    ;
    lemma_split_bounds(word, h, rows);
    let row = word / h;
    lemma_each_row_has_one_band(grid, row);
    let (batch, block, warp, offset) = choose|batch: int, block: int, warp: int, offset: int|
        #![trigger owns_row(grid, batch, block, warp, offset, row)]
        owns_row(grid, batch, block, warp, offset, row);
    assert(owns_row(grid, batch, block, warp, offset, row));
    let item = lemma_parts_have_an_item(grid, false, block, batch, word % h);
    assert(writes_statistic(grid, item, warp, offset, word));
    assert forall|i1: int, w1: int, o1: int, i2: int, w2: int, o2: int|
        #![trigger writes_statistic(grid, i1, w1, o1, word), writes_statistic(grid, i2, w2, o2, word)]
        writes_statistic(grid, i1, w1, o1, word) && writes_statistic(
            grid,
            i2,
            w2,
            o2,
            word,
        ) implies i1 == i2 && w1 == w2 && o1 == o2 by {
        let (p1, p2) = (grid.plane(i1), grid.plane(i2));
        let (k1, k2) = (grid.query_block(i1), grid.query_block(i2));
        let r1 = band_row(grid, p1 / h, QUERIES * k1, w1) + o1;
        let r2 = band_row(grid, p2 / h, QUERIES * k2, w2) + o2;
        grid.lemma_item_bounds(i1);
        grid.lemma_item_bounds(i2);
        lemma_join_injective(h, r1, p1 % h, r2, p2 % h);
        lemma_split(word, h, r1, p1 % h);
        assert(owns_row(grid, p1 / h, k1, w1, o1, row));
        assert(owns_row(grid, p2 / h, k2, w2, o2, row));
        lemma_item_is_its_parts(grid, false, i1, i2);
    }
}

/// Whether causal attention lets a query see a key of its sequence.
pub open spec fn attends(query: int, key: int) -> bool {
    key <= query
}

impl QueryItem {
    /// The block's extent and its key stream follow from its number.
    pub open spec fn consistent(self) -> bool {
        &&& self.query_base == QUERIES * self.query_block
        &&& self.key_tiles == 2 * self.query_block + 2
        &&& self.first_masked == 2 * self.query_block
        &&& self.query_base + QUERIES <= u32::MAX
    }

    /// Row within its sequence of the second of the two tile-high copies that
    /// bring the resident block in.
    pub fn second_box(&self) -> (row: u32)
        requires
            self.consistent(),
        ensures
            row == self.query_base + TILE,
            row == self.query_base + 64,
    {
        self.query_base + TILE
    }

    /// First column of the item's head in the output.
    pub fn head_column(&self) -> (column: u32)
        requires
            HD * (self.head + 1) <= u32::MAX,
        ensures
            column == HD * self.head,
            column == 128 * self.head,
    {
        self.head * HD
    }

    /// First key of key tile `tile`.
    pub fn key_base(&self, tile: u32) -> (key: u32)
        requires
            self.consistent(),
            tile < self.key_tiles,
        ensures
            key == TILE * tile,
            key == 64 * tile,
            key + TILE <= self.query_base + QUERIES,
    {
        tile * TILE
    }

    /// Whether key tile `tile` crosses the diagonal.
    pub fn masked(&self, tile: u32) -> (masked: bool)
        ensures
            masked == (self.first_masked <= tile),
    {
        tile >= self.first_masked
    }

    /// Law: an unmasked tile is visible to every query of the block, a masked
    /// one to some and hidden from others, and a tile past the stream is hidden
    /// from all of them.
    pub proof fn law_stream_is_the_causal_prefix(self, tile: int)
        requires
            self.consistent(),
            0 <= tile,
        ensures
            tile < self.first_masked ==> forall|query: int, key: int|
                self.query_base <= query < self.query_base + QUERIES && TILE * tile <= key < TILE * (
                tile + 1) ==> #[trigger] attends(query, key),
            self.first_masked <= tile < self.key_tiles ==> exists|query: int, key: int|
                self.query_base <= query < self.query_base + QUERIES && TILE * tile <= key < TILE * (
                tile + 1) && !#[trigger] attends(query, key),
            self.first_masked <= tile < self.key_tiles ==> exists|query: int, key: int|
                self.query_base <= query < self.query_base + QUERIES && TILE * tile <= key < TILE * (
                tile + 1) && #[trigger] attends(query, key),
            self.key_tiles <= tile ==> forall|query: int, key: int|
                self.query_base <= query < self.query_base + QUERIES && TILE * tile <= key < TILE * (
                tile + 1) ==> !#[trigger] attends(query, key),
    {
        if self.first_masked <= tile < self.key_tiles {
            assert(!attends(self.query_base as int, TILE * tile + 1));
            assert(attends(self.query_base + 127, TILE * tile));
        }
    }
}

impl KeyItem {
    /// The block's extent follows from its number, and its stream ends within
    /// the 32-bit row range.
    pub open spec fn consistent(self) -> bool {
        &&& self.key_base == QUERIES * self.key_block
        &&& 2 <= self.steps
        &&& self.key_base + TILE * self.steps <= u32::MAX
    }

    /// Row within its sequence of the second of the two tile-high copies that
    /// bring the resident block in.
    pub fn second_box(&self) -> (row: u32)
        requires
            self.consistent(),
        ensures
            row == self.key_base + TILE,
            row == self.key_base + 64,
    {
        self.key_base + TILE
    }

    /// First column of the item's head in the outputs.
    pub fn head_column(&self) -> (column: u32)
        requires
            HD * (self.head + 1) <= u32::MAX,
        ensures
            column == HD * self.head,
            column == 128 * self.head,
    {
        self.head * HD
    }

    /// First query of the tile that step `step` streams.
    pub fn query_base(&self, step: u32) -> (query: u32)
        requires
            self.consistent(),
            step < self.steps,
        ensures
            query == self.key_base + TILE * step,
            query == self.key_base + 64 * step,
    {
        self.key_base + step * TILE
    }

    /// Whether the query tile of `step` crosses the diagonal.
    pub fn masked(&self, step: u32) -> (masked: bool)
        ensures
            masked == (step < 2),
    {
        step < 2
    }

    /// Law: the queries before the stream see no key of the block, a masked
    /// step sees some and misses others, and every later step sees all of them.
    pub proof fn law_stream_is_the_causal_suffix(self, step: int)
        requires
            self.consistent(),
        ensures
            forall|query: int, key: int|
                query < self.key_base <= key ==> !#[trigger] attends(query, key),
            0 <= step < 2 ==> exists|query: int, key: int|
                self.key_base + TILE * step <= query < self.key_base + TILE * (step + 1)
                    && self.key_base <= key < self.key_base + QUERIES && !#[trigger] attends(
                    query,
                    key,
                ),
            0 <= step < 2 ==> exists|query: int, key: int|
                self.key_base + TILE * step <= query < self.key_base + TILE * (step + 1)
                    && self.key_base <= key < self.key_base + QUERIES && #[trigger] attends(
                    query,
                    key,
                ),
            2 <= step ==> forall|query: int, key: int|
                self.key_base + TILE * step <= query && self.key_base <= key < self.key_base
                    + QUERIES ==> #[trigger] attends(query, key),
    {
        if 0 <= step < 2 {
            assert(!attends(self.key_base + TILE * step, self.key_base + 127));
            assert(attends(self.key_base + TILE * step, self.key_base as int));
        }
    }
}

/// Tile visits of one plane when each query block streams its causal keys.
pub open spec fn query_visits(tiles: int) -> int
    decreases tiles,
{
    if tiles <= 0 {
        0
    } else {
        query_visits(tiles - 1) + (2 * (tiles - 1) + 2)
    }
}

/// Tile visits of the key blocks from `block` on.
pub open spec fn key_visits(tiles: int, block: int) -> int
    decreases tiles - block,
{
    if tiles <= block {
        0
    } else {
        2 * (tiles - block) + key_visits(tiles, block + 1)
    }
}

/// Law: the query-parallel and the key-parallel kernels visit equally many
/// tiles of a plane of `tiles` blocks, `tiles * (tiles + 1)`.
pub proof fn law_both_parallel_forms_visit_alike(tiles: int)
    requires
        0 <= tiles,
    ensures
        query_visits(tiles) == tiles * (tiles + 1),
        key_visits(tiles, 0) == tiles * (tiles + 1),
{
    lemma_query_visits(tiles);
    lemma_key_visits(tiles, 0);
}

/// Tiles that the first `items` items of a launch visit. Item number `item`
/// streams two tiles for each block from its own to the end of its causal range,
/// which are as many for its query block as for its key block.
pub open spec fn visits_of(grid: AttentionGrid, items: int) -> int
    decreases items,
{
    if items <= 0 {
        0
    } else {
        visits_of(grid, items - 1) + 2 * (grid.tiles() - (items - 1) / grid.planes())
    }
}

/// Law: the items of a launch visit `tiles * (tiles + 1)` tiles a plane between
/// them, and each as many as its decoding says, in either parallel form.
pub proof fn law_launch_visits_add_up(grid: AttentionGrid, item: int)
    requires
        grid.well_formed(),
        0 <= item < grid.items(),
    ensures
        visits_of(grid, item + 1) - visits_of(grid, item) == 2 * grid.query_block(item) + 2,
        visits_of(grid, item + 1) - visits_of(grid, item) == 2 * (grid.tiles() - grid.key_block(
            item,
        )),
        visits_of(grid, grid.items()) == grid.planes() * query_visits(grid.tiles()),
{
    grid.lemma_item_bounds(item);
    lemma_visits_of_blocks(grid, grid.tiles());
    lemma_query_visits(grid.tiles());
    assert(grid.planes() * grid.tiles() == grid.items()) by (nonlinear_arith)
        requires
            grid.items() == grid.tiles() * grid.planes(),
    ;
    lemma_visited_blocks(grid.tiles(), grid.tiles());
}

/// Tiles that one plane's first `blocks` items visit.
spec fn visited_blocks(tiles: int, blocks: int) -> int
    decreases blocks,
{
    if blocks <= 0 {
        0
    } else {
        visited_blocks(tiles, blocks - 1) + 2 * (tiles - (blocks - 1))
    }
}

proof fn lemma_visited_blocks(tiles: int, blocks: int)
    requires
        0 <= blocks <= tiles,
    ensures
        visited_blocks(tiles, blocks) == tiles * (tiles + 1) - (tiles - blocks) * (tiles - blocks
            + 1),
    decreases blocks,
{
    if blocks > 0 {
        lemma_visited_blocks(tiles, blocks - 1);
        let rest = tiles - blocks;
        assert((rest + 1) * (rest + 2) == rest * (rest + 1) + 2 * (rest + 1)) by (nonlinear_arith);
    }
}

proof fn lemma_visits_of_blocks(grid: AttentionGrid, blocks: int)
    requires
        grid.well_formed(),
        0 < grid.planes(),
        0 <= blocks,
    ensures
        visits_of(grid, grid.planes() * blocks) == grid.planes() * visited_blocks(
            grid.tiles(),
            blocks,
        ),
    decreases blocks,
{
    let planes = grid.planes();
    if blocks > 0 {
        lemma_visits_of_blocks(grid, blocks - 1);
        lemma_visits_of_one_block(grid, blocks - 1, planes);
        let before = visited_blocks(grid.tiles(), blocks - 1);
        let more = 2 * (grid.tiles() - (blocks - 1));
        assert(planes * (before + more) == planes * before + planes * more) by (nonlinear_arith);
        assert(planes * (blocks - 1) + planes == planes * blocks) by (nonlinear_arith);
    } else {
        assert(planes * blocks == 0) by (nonlinear_arith)
            requires
                blocks == 0,
        ;
        assert(planes * visited_blocks(grid.tiles(), blocks) == 0) by (nonlinear_arith)
            requires
                visited_blocks(grid.tiles(), blocks) == 0,
        ;
    }
}

proof fn lemma_visits_of_one_block(grid: AttentionGrid, block: int, count: int)
    requires
        grid.well_formed(),
        0 <= block,
        0 <= count <= grid.planes(),
        0 < grid.planes(),
    ensures
        visits_of(grid, grid.planes() * block + count) == visits_of(grid, grid.planes() * block)
            + count * (2 * (grid.tiles() - block)),
    decreases count,
{
    let planes = grid.planes();
    let each = 2 * (grid.tiles() - block);
    assert(0 <= planes * block) by (nonlinear_arith)
        requires
            0 <= block,
            0 < planes,
    ;
    if count > 0 {
        lemma_visits_of_one_block(grid, block, count - 1);
        lemma_split(planes * block + count - 1, planes, block, count - 1);
        assert(count * each == (count - 1) * each + each) by (nonlinear_arith);
    } else {
        assert(count * each == 0) by (nonlinear_arith)
            requires
                count == 0,
        ;
    }
}

proof fn lemma_query_visits(tiles: int)
    requires
        0 <= tiles,
    ensures
        query_visits(tiles) == tiles * (tiles + 1),
    decreases tiles,
{
    if tiles > 0 {
        lemma_query_visits(tiles - 1);
        assert((tiles - 1) * (tiles - 1 + 1) + (2 * (tiles - 1) + 2) == tiles * (tiles + 1))
            by (nonlinear_arith);
    } else {
        assert(tiles * (tiles + 1) == 0) by (nonlinear_arith)
            requires
                tiles == 0,
        ;
    }
}

proof fn lemma_key_visits(tiles: int, block: int)
    requires
        0 <= block <= tiles,
    ensures
        key_visits(tiles, block) == (tiles - block) * (tiles - block + 1),
    decreases tiles - block,
{
    if block < tiles {
        lemma_key_visits(tiles, block + 1);
        assert(2 * (tiles - block) + (tiles - (block + 1)) * (tiles - (block + 1) + 1) == (tiles
            - block) * (tiles - block + 1)) by (nonlinear_arith);
    } else {
        assert((tiles - block) * (tiles - block + 1) == 0) by (nonlinear_arith)
            requires
                tiles == block,
        ;
    }
}

/// What the forward does when a tile's row maxima have been voted on.
#[derive(Clone, Copy, PartialEq, Eq, Structural, Debug)]
pub enum Correction {
    /// The output keeps accumulating under the reference it has.
    Keep,
    /// The first tile sets the reference; there is no output to rescale yet.
    Reference,
    /// The reference moves: once the accumulation of `after` is complete, the
    /// output segment is rescaled in place.
    Rescale { after: u32 },
}

impl Correction {
    /// Whether the reference and the running sum move.
    pub open spec fn moves(self) -> bool {
        !(self is Keep)
    }
}

/// The correction of `tile`, by the block's vote.
pub open spec fn correction_of(tile: int, exceeded: bool) -> Correction {
    if !exceeded {
        Correction::Keep
    } else if tile == 0 {
        Correction::Reference
    } else {
        Correction::Rescale { after: (tile - 1) as u32 }
    }
}

/// Decides the correction of `tile` from the block's vote.
pub fn correction(tile: u32, exceeded: bool) -> (decision: Correction)
    ensures
        decision == correction_of(tile as int, exceeded),
        decision.moves() == exceeded,
        match decision {
            Correction::Keep => !exceeded,
            Correction::Reference => exceeded && tile == 0,
            Correction::Rescale { after } => exceeded && after + 1 == tile,
        },
{
    if !exceeded {
        Correction::Keep
    } else if tile == 0 {
        Correction::Reference
    } else {
        Correction::Rescale { after: tile - 1 }
    }
}

/// Rescales of an item among its first `tiles` tiles, by the block's votes: what
/// the item counts in its correction word.
pub open spec fn rescales(votes: Seq<bool>, tiles: int) -> int
    decreases tiles,
{
    if tiles <= 0 {
        0
    } else {
        rescales(votes, tiles - 1) + if correction_of(tiles - 1, votes[tiles - 1]) is Rescale {
            1int
        } else {
            0
        }
    }
}

/// Law: whatever the votes, an item rescales its output at most once for each of
/// its key tiles but the first, `2 * query_block + 1` times, and exactly that
/// often where every vote is to move.
pub proof fn law_rescales_are_bounded(item: QueryItem, votes: Seq<bool>)
    requires
        item.consistent(),
        votes.len() == item.key_tiles,
    ensures
        0 <= rescales(votes, item.key_tiles as int) <= 2 * item.query_block + 1,
        (forall|tile: int| 0 <= tile < votes.len() ==> #[trigger] votes[tile]) ==> rescales(
            votes,
            item.key_tiles as int,
        ) == 2 * item.query_block + 1,
{
    lemma_rescales(votes, item.key_tiles as int);
}

proof fn lemma_rescales(votes: Seq<bool>, tiles: int)
    requires
        0 <= tiles <= votes.len(),
    ensures
        0 <= rescales(votes, tiles),
        tiles > 0 ==> rescales(votes, tiles) <= tiles - 1,
        tiles > 0 && (forall|tile: int| 0 <= tile < votes.len() ==> #[trigger] votes[tile])
            ==> rescales(votes, tiles) == tiles - 1,
    decreases tiles,
{
    if tiles > 0 {
        lemma_rescales(votes, tiles - 1);
    }
}

/// Word of the correction-count output that belongs to an item.
pub open spec fn correction_slot_of(grid: AttentionGrid, plane: int, query_block: int) -> int {
    grid.tiles() * plane + query_block
}

/// Word of the correction-count output that an item of the forward writes.
pub fn correction_slot(grid: &AttentionGrid, item: &QueryItem) -> (slot: u32)
    requires
        grid.well_formed(),
        item.plane < grid.planes(),
        item.query_block < grid.tiles(),
    ensures
        slot == correction_slot_of(*grid, item.plane as int, item.query_block as int),
        slot == (grid.sequence_length as int / 128) * item.plane + item.query_block,
        slot < grid.items(),
{
    proof {
        lemma_join_bounds(
            item.plane as int,
            item.query_block as int,
            grid.tiles(),
            grid.planes(),
        );
        assert(item.plane * grid.tiles() == grid.tiles() * item.plane) by (nonlinear_arith);
        assert(0 <= grid.tiles() * item.plane) by (nonlinear_arith)
            requires
                0 <= grid.tiles(),
                0 <= item.plane,
        ;
    }
    item.plane * (grid.sequence_length / QUERIES) + item.query_block
}

/// Item number `item` counts its corrections in the word `word`.
pub open spec fn counts_in(grid: AttentionGrid, item: int, word: int) -> bool {
    &&& 0 <= item < grid.items()
    &&& correction_slot_of(grid, grid.plane(item), grid.query_block(item)) == word
}

/// Law: over all items of a forward launch, each word of the correction-count
/// output is written by exactly one item.
pub proof fn law_each_correction_word_has_one_writer(grid: AttentionGrid, word: int)
    requires
        grid.well_formed(),
        0 <= word < grid.items(),
    ensures
        exists|item: int| #[trigger] counts_in(grid, item, word),
        forall|first: int, second: int| #[trigger]
            counts_in(grid, first, word) && #[trigger] counts_in(grid, second, word) ==> first
                == second,
{
    let (tiles, planes) = (grid.tiles(), grid.planes());
    assert(0 < tiles) by (nonlinear_arith)
        requires
            0 <= word < tiles * planes,
            0 <= tiles,
    ;
    lemma_split_bounds(word, tiles, planes);
    let plane = word / tiles;
    assert(0 < grid.heads) by (nonlinear_arith)
        requires
            0 < tiles * planes,
            0 <= tiles,
            planes == grid.heads * grid.batches,
    ;
    lemma_split_bounds(plane, grid.heads as int, grid.batches as int);
    let item = lemma_parts_have_an_item(
        grid,
        false,
        word % tiles,
        plane / grid.heads as int,
        plane % grid.heads as int,
    );
    grid.lemma_item_bounds(item);
    lemma_split_bounds(grid.plane(item), grid.heads as int, grid.batches as int);
    assert(counts_in(grid, item, word));
    assert forall|first: int, second: int| #[trigger]
        counts_in(grid, first, word) && #[trigger] counts_in(grid, second, word) implies first
        == second by {
        grid.lemma_item_bounds(first);
        grid.lemma_item_bounds(second);
        lemma_join_injective(
            tiles,
            grid.plane(first),
            grid.query_block(first),
            grid.plane(second),
            grid.query_block(second),
        );
        lemma_item_is_its_parts(grid, false, first, second);
    }
}

/// Some warp's band in item number `item` holds the element in `row` and `column`
/// of the output.
pub open spec fn item_writes_element(
    grid: AttentionGrid,
    by_keys: bool,
    item: int,
    row: int,
    column: int,
) -> bool {
    exists|warp: int, offset: int, feature: int|
        #![trigger writes_element(grid, by_keys, item, warp, offset, feature, row, column)]
        writes_element(grid, by_keys, item, warp, offset, feature, row, column)
}

/// Some warp's band in item number `item` of a query-parallel launch holds the
/// statistic `word`.
pub open spec fn item_writes_statistic(grid: AttentionGrid, item: int, word: int) -> bool {
    exists|warp: int, offset: int|
        #![trigger writes_statistic(grid, item, warp, offset, word)]
        writes_statistic(grid, item, warp, offset, word)
}

/// Law: an item of a launch writes the 128 rows of its block in the 128 columns
/// of its head, and no other element of the output.
pub proof fn law_an_item_writes_its_block(
    grid: AttentionGrid,
    by_keys: bool,
    item: int,
    row: int,
    column: int,
)
    requires
        grid.well_formed(),
        0 <= item < grid.items(),
    ensures
        ({
            let batch = grid.plane(item) / grid.heads as int;
            let head = grid.plane(item) % grid.heads as int;
            let first = batch * grid.sequence_length + QUERIES * block_of(grid, by_keys, item);
            item_writes_element(grid, by_keys, item, row, column) <==> first <= row < first
                + QUERIES && HD * head <= column < HD * head + HD
        }),
{
    grid.lemma_item_bounds(item);
    let batch = grid.plane(item) / grid.heads as int;
    let head = grid.plane(item) % grid.heads as int;
    let first = batch * grid.sequence_length + 128 * block_of(grid, by_keys, item);
    let within = row - first;
    if 0 <= within < 128 && 128 * head <= column < 128 * head + 128 {
        assert(writes_element(
            grid,
            by_keys,
            item,
            within / 32,
            within % 32,
            column - 128 * head,
            row,
            column,
        ));
    }
}

/// Law: an item of a query-parallel launch writes the statistics of the 128 rows
/// of its block under its head, and no other.
pub proof fn law_an_item_writes_its_statistics(grid: AttentionGrid, item: int, word: int)
    requires
        grid.well_formed(),
        0 <= item < grid.items(),
    ensures
        ({
            let batch = grid.plane(item) / grid.heads as int;
            let head = grid.plane(item) % grid.heads as int;
            let first = batch * grid.sequence_length + QUERIES * grid.query_block(item);
            item_writes_statistic(grid, item, word) <==> first <= word / grid.heads as int && word
                / (grid.heads as int) < first + QUERIES && word % grid.heads as int == head
        }),
{
    grid.lemma_item_bounds(item);
    let h = grid.heads as int;
    let batch = grid.plane(item) / h;
    let head = grid.plane(item) % h;
    let block = grid.query_block(item);
    let first = batch * grid.sequence_length + 128 * block;
    let within = word / h - first;
    if 0 <= within < 128 && word % h == head {
        vstd::arithmetic::div_mod::lemma_fundamental_div_mod(word, h);
        assert(band_row(grid, batch, 128 * block, within / 32) + within % 32 == word / h);
        assert(writes_statistic(grid, item, within / 32, within % 32, word));
    }
    assert forall|warp: int, offset: int|
        #![trigger writes_statistic(grid, item, warp, offset, word)]
        writes_statistic(grid, item, warp, offset, word) implies 0 <= within < 128 && word % h
        == head by {
        let row = band_row(grid, batch, 128 * block, warp) + offset;
        lemma_split(word, h, row, head);
    }
}

/// The forward kernel's schedule over a grid.
#[derive(Clone, Copy, PartialEq, Eq, Structural, Debug)]
pub struct ForwardStream {
    pub grid: AttentionGrid,
}

/// Progress of one item of the forward: where it writes, the key tile whose vote
/// comes next, and the rescales so far.
#[derive(Clone, Copy, PartialEq, Eq, Structural, Debug)]
pub struct ForwardWork {
    pub item: QueryItem,
    /// Global row of the first of the 128 rows it writes.
    pub first_row: u32,
    /// First of the 128 columns it writes.
    pub first_column: u32,
    /// Word of the correction-count output it writes.
    pub correction_word: u32,
    pub tile: u32,
    pub corrections: u32,
}

impl ForwardStream {
    /// Opens item number `item`. It writes the 128 rows of its query block in the
    /// 128 columns of its head, the statistics of those rows under that head and
    /// one correction word, and nothing else.
    pub fn work(&self, item: u32) -> (work: ForwardWork)
        requires
            self.grid.well_formed(),
            item < self.grid.items(),
            HD * self.grid.heads <= u32::MAX,
        ensures
            work.item.query_block == self.grid.tiles() - 1 - item as int / self.grid.planes(),
            work.item.query_block + item as int / (self.grid.heads * self.grid.batches) + 1
                == self.grid.sequence_length as int / 128,
            work.item.plane == item as int % self.grid.planes(),
            work.item.plane == item as int % (self.grid.heads * self.grid.batches),
            work.item.query_base == 128 * work.item.query_block,
            work.item.key_tiles == 2 * work.item.query_block + 2,
            work.item.first_masked == 2 * work.item.query_block,
            work.first_row == work.item.batch * self.grid.sequence_length + 128
                * work.item.query_block,
            work.first_column == 128 * work.item.head,
            work.correction_word == (self.grid.sequence_length as int / 128) * work.item.plane
                + work.item.query_block,
            work.item.head == work.item.plane % self.grid.heads,
            work.item.batch == work.item.plane / self.grid.heads,
            work.item.consistent(),
            work.item.query_base + QUERIES <= self.grid.sequence_length,
            work.first_row == work.item.batch * self.grid.sequence_length + work.item.query_base,
            work.first_row + QUERIES <= self.grid.batches * self.grid.sequence_length,
            work.first_column == HD * work.item.head,
            work.correction_word == self.grid.tiles() * work.item.plane + work.item.query_block,
            work.correction_word < self.grid.items(),
            work.tile == 0,
            work.corrections == 0,
            forall|row: int, column: int| #[trigger]
                item_writes_element(self.grid, false, item as int, row, column) <==> work.first_row
                    <= row < work.first_row + QUERIES && work.first_column <= column
                    < work.first_column + HD,
            forall|word: int| #[trigger]
                item_writes_statistic(self.grid, item as int, word) <==> work.first_row <= word
                    / self.grid.heads as int && word / (self.grid.heads as int) < work.first_row
                    + QUERIES && word % self.grid.heads as int == work.item.head,
            forall|word: int| #[trigger]
                counts_in(self.grid, item as int, word) <==> word == work.correction_word,
    {
        let decoded: QueryItem = self.grid.query_item(item);
        proof {
            self.grid.lemma_item_bounds(item as int);
            assert forall|row: int, column: int| #[trigger]
                item_writes_element(self.grid, false, item as int, row, column) <==> decoded.batch
                    * self.grid.sequence_length + decoded.query_base <= row < decoded.batch
                    * self.grid.sequence_length + decoded.query_base + QUERIES && HD * decoded.head
                    <= column < HD * decoded.head + HD by {
                law_an_item_writes_its_block(self.grid, false, item as int, row, column);
            }
            assert forall|word: int| #[trigger]
                item_writes_statistic(self.grid, item as int, word) <==> decoded.batch
                    * self.grid.sequence_length + decoded.query_base <= word
                    / self.grid.heads as int && word / (self.grid.heads as int) < decoded.batch
                    * self.grid.sequence_length + decoded.query_base + QUERIES && word
                    % self.grid.heads as int == decoded.head by {
                law_an_item_writes_its_statistics(self.grid, item as int, word);
            }
            lemma_mul_monotone(
                decoded.batch + 1,
                self.grid.batches as int,
                self.grid.sequence_length as int,
            );
            assert((decoded.batch + 1) * self.grid.sequence_length == decoded.batch
                * self.grid.sequence_length + self.grid.sequence_length) by (nonlinear_arith);
        }
        ForwardWork {
            item: decoded,
            first_row: band_origin(&self.grid, decoded.batch, decoded.query_base, 0),
            first_column: decoded.head_column(),
            correction_word: correction_slot(&self.grid, &decoded),
            tile: 0,
            corrections: 0,
        }
    }
}

impl ForwardWork {
    /// The item after one more vote.
    pub open spec fn after(self, exceeded: bool) -> ForwardWork {
        ForwardWork {
            tile: (self.tile + 1) as u32,
            corrections: (self.corrections + if correction_of(self.tile as int, exceeded)
                is Rescale {
                1int
            } else {
                0
            }) as u32,
            ..self
        }
    }

    /// The item after a run of votes.
    pub open spec fn voted(self, votes: Seq<bool>) -> ForwardWork
        decreases votes.len(),
    {
        if votes.len() == 0 {
            self
        } else {
            self.voted(votes.drop_last()).after(votes.last())
        }
    }

    /// Takes the block's vote on the next key tile, and counts a rescale.
    pub fn vote(&mut self, exceeded: bool) -> (decision: Correction)
        requires
            old(self).tile < old(self).item.key_tiles,
            old(self).corrections <= old(self).tile,
        ensures
            *final(self) == old(self).after(exceeded),
            final(self).corrections <= final(self).tile,
            decision == correction_of(old(self).tile as int, exceeded),
            decision.moves() == exceeded,
            match decision {
                Correction::Keep => !exceeded && final(self).corrections == old(self).corrections,
                Correction::Reference => exceeded && old(self).tile == 0 && final(self).corrections
                    == old(self).corrections,
                Correction::Rescale { after } => exceeded && after + 1 == old(self).tile
                    && final(self).corrections == old(self).corrections + 1,
            },
            final(self).tile == old(self).tile + 1,
            final(self).item == old(self).item,
            final(self).first_row == old(self).first_row,
            final(self).first_column == old(self).first_column,
            final(self).correction_word == old(self).correction_word,
    {
        let decision: Correction = correction(self.tile, exceeded);
        if let Correction::Rescale { after: _ } = decision {
            self.corrections = self.corrections + 1;
        }
        self.tile = self.tile + 1;
        decision
    }

    /// Global row of the first of the 32 rows that warp `warp` writes.
    pub fn band(&self, warp: u32) -> (row: u32)
        requires
            warp < PASS_WARPS,
            self.first_row + QUERIES <= u32::MAX,
        ensures
            row == self.first_row + WARP_ROWS * warp,
            row == self.first_row + 32 * warp,
            row + WARP_ROWS <= self.first_row + QUERIES,
    {
        self.first_row + WARP_ROWS * warp
    }

    /// Law: whatever the block votes, what an item has counted after its last key
    /// tile is its rescales, at most `2 * query_block + 1`, and where it writes
    /// has not moved.
    pub proof fn law_an_item_counts_its_rescales(self, votes: Seq<bool>)
        requires
            self.item.consistent(),
            self.tile == 0,
            self.corrections == 0,
            votes.len() == self.item.key_tiles,
        ensures
            ({
                let done = self.voted(votes);
                &&& done.tile == self.item.key_tiles
                &&& done.corrections == rescales(votes, self.item.key_tiles as int)
                &&& done.corrections <= 2 * self.item.query_block + 1
                &&& done.item == self.item
                &&& done.first_row == self.first_row
                &&& done.first_column == self.first_column
                &&& done.correction_word == self.correction_word
            }),
    {
        self.lemma_voted(votes, votes.len() as int);
        assert(votes.take(votes.len() as int) =~= votes);
        law_rescales_are_bounded(self.item, votes);
    }

    proof fn lemma_voted(self, votes: Seq<bool>, tiles: int)
        requires
            self.tile == 0,
            self.corrections == 0,
            0 <= tiles <= votes.len() <= u32::MAX,
        ensures
            ({
                let done = self.voted(votes.take(tiles));
                &&& done.tile == tiles
                &&& done.corrections == rescales(votes, tiles)
                &&& done.corrections <= tiles
                &&& done.item == self.item
                &&& done.first_row == self.first_row
                &&& done.first_column == self.first_column
                &&& done.correction_word == self.correction_word
            }),
        decreases tiles,
    {
        if tiles > 0 {
            self.lemma_voted(votes, tiles - 1);
            assert(votes.take(tiles).drop_last() =~= votes.take(tiles - 1));
            assert(votes.take(tiles).last() == votes[tiles - 1]);
        }
    }
}

/// Tensor-memory columns of a forward block: the accumulator follows the two
/// score segments.
pub const FORWARD_ACCUMULATOR_COLUMN: u32 = 128;

/// Tensor-memory column of a backward block's two gradient segments.
pub const GRADIENT_COLUMN: u32 = 128;

/// Tensor-memory column of a backward block's first accumulator.
pub const ACCUMULATOR_COLUMN: u32 = 256;

/// Tensor-memory column of the key-parallel backward's second accumulator.
pub const SECOND_ACCUMULATOR_COLUMN: u32 = 384;

/// First column of the half of a double-buffered segment that `tile` uses.
pub open spec fn segment_column(base: int, tile: int) -> int {
    base + TILE * (tile % 2)
}

/// Column of the half of a double-buffered segment pair that `tile` uses.
pub fn buffer_column(base: u32, tile: u32) -> (column: u32)
    requires
        base <= SECOND_ACCUMULATOR_COLUMN,
    ensures
        column == segment_column(base as int, tile as int),
        column == base + 64 * (tile as int % 2),
{
    if tile % 2 == 0 {
        base
    } else {
        base + TILE
    }
}

/// Law: the score segments, the gradient segments and the accumulators lie side
/// by side, and together fill the columns their kernel allocates: 256 for the
/// forward, 512 for the key-parallel backward. Two adjacent tiles never share a
/// segment.
pub proof fn law_tensor_memory_is_partitioned(tile: int)
    requires
        0 <= tile,
    ensures
        segment_column(0, tile) + TILE <= FORWARD_ACCUMULATOR_COLUMN,
        FORWARD_ACCUMULATOR_COLUMN + HD == crate::flash::host::FORWARD_TMEM_COLUMNS,
        segment_column(0, tile) + TILE <= GRADIENT_COLUMN,
        GRADIENT_COLUMN <= segment_column(GRADIENT_COLUMN as int, tile),
        segment_column(GRADIENT_COLUMN as int, tile) + TILE <= ACCUMULATOR_COLUMN,
        ACCUMULATOR_COLUMN + HD <= SECOND_ACCUMULATOR_COLUMN,
        SECOND_ACCUMULATOR_COLUMN + HD == crate::flash::host::BACKWARD_TMEM_COLUMNS,
        segment_column(0, tile) != segment_column(0, tile + 1),
        segment_column(0, tile) + TILE <= segment_column(0, tile + 1) || segment_column(0, tile + 1)
            + TILE <= segment_column(0, tile),
{
}

/// Law: causal attention lets a query see its own row and every earlier one, and
/// no later one.
pub proof fn law_a_query_sees_no_later_key(query: int, key: int)
    ensures
        attends(query, key) <==> key <= query,
{
}

/// Law: a warp writes where it drains. Row `r` of a block's 128-row accumulator,
/// which is row `offset` of the band of warp `warp`, lands `r` rows past the
/// block's first, whatever the batch and the block; the next warp's band begins
/// where this one's ends.
pub proof fn law_bands_follow_the_accumulator(
    grid: AttentionGrid,
    batch: int,
    base: int,
    warp: int,
    offset: int,
    r: int,
)
    requires
        0 <= offset < 32,
        r == 32 * warp + offset,
    ensures
        band_row(grid, batch, base, warp) + offset == batch * grid.sequence_length + base + r,
        band_row(grid, batch, base, warp + 1) == band_row(grid, batch, base, warp) + 32,
        band_row(grid, batch, base + 128, warp) == band_row(grid, batch, base, warp) + 128,
        band_row(grid, batch + 1, base, warp) == band_row(grid, batch, base, warp)
            + grid.sequence_length,
{
    assert((batch + 1) * grid.sequence_length == batch * grid.sequence_length
        + grid.sequence_length) by (nonlinear_arith);
}

/// Law: what an item writes is what its accumulator holds, row for row and column
/// for column. Row `32 * warp + offset` of the block, feature `feature`, goes to
/// that row of the block in its batch and that column of its head; the block and
/// the plane are the item number's quotient and remainder by the planes, with
/// the query blocks counted from the last.
pub proof fn law_an_element_is_written_in_place(
    grid: AttentionGrid,
    by_keys: bool,
    item: int,
    warp: int,
    offset: int,
    feature: int,
    row: int,
    column: int,
)
    requires
        grid.well_formed(),
        writes_element(grid, by_keys, item, warp, offset, feature, row, column),
    ensures
        ({
            let planes = grid.heads * grid.batches;
            let plane = item % planes;
            let block = if by_keys {
                item / planes
            } else {
                grid.sequence_length as int / 128 - 1 - item / planes
            };
            &&& 0 <= warp < 4
            &&& 0 <= offset < 32
            &&& 0 <= feature < 128
            &&& row == (plane / grid.heads as int) * grid.sequence_length + 128 * block + (32 * warp
                + offset)
            &&& column == 128 * (plane % grid.heads as int) + feature
        }),
{
}

/// Law: a statistic is written beside its row. The one of row `32 * warp + offset`
/// of an item's query block is the head's in that row of the batch.
pub proof fn law_a_statistic_is_written_in_place(
    grid: AttentionGrid,
    item: int,
    warp: int,
    offset: int,
    word: int,
)
    requires
        grid.well_formed(),
        writes_statistic(grid, item, warp, offset, word),
    ensures
        ({
            let planes = grid.heads * grid.batches;
            let plane = item % planes;
            let block = grid.sequence_length as int / 128 - 1 - item / planes;
            let row = (plane / grid.heads as int) * grid.sequence_length + 128 * block + (32 * warp
                + offset);
            &&& 0 <= warp < 4
            &&& 0 <= offset < 32
            &&& word == grid.heads * row + plane % grid.heads as int
        }),
{
}

/// Law: a tile rescales the output only where the block votes to move and an
/// earlier tile has been accumulated, and then it waits for the tile just before
/// it; the first tile moves the reference without a rescale.
pub proof fn law_a_rescale_waits_for_the_tile_before(tile: u32, exceeded: bool)
    ensures
        match correction_of(tile as int, exceeded) {
            Correction::Keep => !exceeded,
            Correction::Reference => exceeded && tile == 0,
            Correction::Rescale { after } => exceeded && after + 1 == tile,
        },
{
}

/// Law: a vote counts by itself. Turning the vote on one tile from keep to move
/// adds one rescale where the tile is not the first, and none where it is.
pub proof fn law_each_later_vote_is_one_rescale(votes: Seq<bool>, tiles: int, tile: int)
    requires
        0 <= tiles <= votes.len(),
        0 <= tile < votes.len(),
    ensures
        rescales(votes.update(tile, true), tiles) == rescales(votes.update(tile, false), tiles)
            + if 0 < tile < tiles {
            1int
        } else {
            0
        },
        (forall|t: int| 0 <= t < tiles ==> !#[trigger] votes[t]) ==> rescales(votes, tiles) == 0,
    decreases tiles,
{
    if tiles > 0 {
        law_each_later_vote_is_one_rescale(votes, tiles - 1, tile);
        assert(votes.update(tile, true)[tiles - 1] == if tile == tiles - 1 {
            true
        } else {
            votes[tiles - 1]
        });
        assert(votes.update(tile, false)[tiles - 1] == if tile == tiles - 1 {
            false
        } else {
            votes[tiles - 1]
        });
    }
}

/// Law: tiles of one parity share a half of a segment pair and tiles of the other
/// have the other half, 64 columns on.
pub proof fn law_segments_alternate(base: int, tile: int)
    requires
        0 <= tile,
    ensures
        segment_column(base, 2 * tile) == base,
        segment_column(base, 2 * tile + 1) == base + 64,
{
}

/// Law: every work item is decoded from its number alone, and the blocks that two
/// numbers a whole row of planes apart decode to are neighbours: the next item of
/// a plane has the query block before and the key block after.
pub proof fn law_items_of_a_plane_step_through_its_blocks(grid: AttentionGrid, item: int)
    requires
        grid.well_formed(),
        0 <= item,
        item + grid.heads * grid.batches < (grid.sequence_length as int / 128) * (grid.heads
            * grid.batches),
    ensures
        ({
            let next = item + grid.heads * grid.batches;
            &&& grid.query_block(next) == grid.query_block(item) - 1
            &&& grid.key_block(next) == grid.key_block(item) + 1
            &&& grid.plane(next) == grid.plane(item)
            &&& grid.query_block(item) + grid.key_block(item) == grid.sequence_length as int / 128
                - 1
        }),
        item < grid.heads * grid.batches ==> grid.key_block(item) == 0 && grid.plane(item) == item,
{
    let planes = grid.heads * grid.batches;
    grid.lemma_item_bounds(item);
    let q = item / planes;
    let r = item % planes;
    vstd::arithmetic::div_mod::lemma_fundamental_div_mod(item, planes);
    assert(planes * (q + 1) == planes * q + planes) by (nonlinear_arith);
    lemma_split(item + planes, planes, q + 1, r);
    if item < planes {
        lemma_split(item, planes, 0, item);
    }
}

} // verus!
