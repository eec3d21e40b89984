//! Index maps of the tiled fp32 attention kernels.
//!
//! A block owns a run of rows of one `(sequence, head)`: query rows for the
//! forward and for dQ, key rows for dK and dV. It streams tiles of the other
//! axis through shared memory. Each thread holds a fragment of the score tile
//! and a fragment of the block's output. This module says which element every
//! thread stages, scores and writes; the arithmetic is the kernels'.

use crate::arith::{
    block_count, ceil_div, lemma_ceil_div, lemma_join_bounds, lemma_join_injective, lemma_mul_monotone,
    lemma_split, lemma_split_bounds,
};
use crate::flash::schedule::attends;
use crate::launch::LaunchConfig;
use vstd::prelude::*;

verus! {

/// Head width the tiled kernels specialize on.
pub const TILE_HD: usize = 128;

/// Tiled-forward query rows per block.
pub const FWD_BQ: usize = 32;

/// Tiled-forward key rows per staged tile.
pub const FWD_BK: usize = 16;

/// Tiled-forward query rows per thread in the score fragment.
pub const FWD_TM: usize = 4;

/// Tiled-forward key columns per thread in the score fragment.
pub const FWD_TN: usize = 4;

/// Tiled dQ query rows per block.
pub const BWQ_BQ: usize = 16;

/// Tiled dQ key rows per staged tile.
pub const BWQ_BK: usize = 16;

/// Tiled dQ query rows per thread in the score fragment.
pub const BWQ_TM: usize = 4;

/// Tiled dQ key columns per thread in the score fragment.
pub const BWQ_TN: usize = 4;

/// Tiled dK/dV key rows per block.
pub const KV_BK: usize = 16;

/// Tiled dK/dV query rows per staged tile.
pub const KV_BQ: usize = 16;

/// Tiled dK/dV query rows per thread in the score fragment.
pub const KV_TM: usize = 4;

/// Tiled dK/dV key columns per thread in the score fragment.
pub const KV_TN: usize = 4;

/// Statically allocated shared memory a block may have.
pub const STATIC_SHARED_LIMIT: usize = 49152;

/// Most heads or sequences a launch takes.
pub const MAX_GRID_EXTENT: usize = 65535;

/// How one kernel cuts its score tile.
#[derive(Clone, Copy, PartialEq, Eq, Structural, Debug)]
pub struct Tiling {
    /// Query rows of the score tile.
    pub queries: usize,
    /// Key columns of the score tile.
    pub keys: usize,
    /// Query rows per thread.
    pub tm: usize,
    /// Key columns per thread.
    pub tn: usize,
    /// Whether the block owns the keys and streams the queries.
    pub owns_keys: bool,
}

/// The cut of the tiled forward.
pub fn forward_tiling() -> (tiling: Tiling)
    ensures
        tiling == (Tiling {
            queries: FWD_BQ,
            keys: FWD_BK,
            tm: FWD_TM,
            tn: FWD_TN,
            owns_keys: false,
        }),
        tiling == (Tiling { queries: 32, keys: 16, tm: 4, tn: 4, owns_keys: false }),
        tiling.well_formed(),
        tiling.threads() == 32,
        tiling.acc_rows() == 4,
        tiling.acc_features() == 32,
{
    let tiling = Tiling {
        queries: FWD_BQ,
        keys: FWD_BK,
        tm: FWD_TM,
        tn: FWD_TN,
        owns_keys: false,
    };
    proof {
        tiling.lemma_cut(8, 4, 4, 32);
    }
    tiling
}

/// The cut of the tiled dQ.
pub fn backward_q_tiling() -> (tiling: Tiling)
    ensures
        tiling == (Tiling {
            queries: BWQ_BQ,
            keys: BWQ_BK,
            tm: BWQ_TM,
            tn: BWQ_TN,
            owns_keys: false,
        }),
        tiling == (Tiling { queries: 16, keys: 16, tm: 4, tn: 4, owns_keys: false }),
        tiling.well_formed(),
        tiling.threads() == 16,
        tiling.acc_rows() == 4,
        tiling.acc_features() == 32,
{
    let tiling = Tiling {
        queries: BWQ_BQ,
        keys: BWQ_BK,
        tm: BWQ_TM,
        tn: BWQ_TN,
        owns_keys: false,
    };
    proof {
        tiling.lemma_cut(4, 4, 4, 32);
    }
    tiling
}

/// The cut of the tiled dK/dV.
pub fn backward_kv_tiling() -> (tiling: Tiling)
    ensures
        tiling == (Tiling {
            queries: KV_BQ,
            keys: KV_BK,
            tm: KV_TM,
            tn: KV_TN,
            owns_keys: true,
        }),
        tiling == (Tiling { queries: 16, keys: 16, tm: 4, tn: 4, owns_keys: true }),
        tiling.well_formed(),
        tiling.threads() == 16,
        tiling.acc_rows() == 4,
        tiling.acc_features() == 32,
{
    let tiling = Tiling {
        queries: KV_BQ,
        keys: KV_BK,
        tm: KV_TM,
        tn: KV_TN,
        owns_keys: true,
    };
    proof {
        tiling.lemma_cut(4, 4, 4, 32);
    }
    tiling
}

impl Tiling {
    /// Threads along the queries of the score tile.
    pub open spec fn row_threads(self) -> int {
        self.queries as int / self.tm as int
    }

    /// Threads along the keys of the score tile.
    pub open spec fn col_threads(self) -> int {
        self.keys as int / self.tn as int
    }

    /// Threads of a block.
    pub open spec fn threads(self) -> int {
        self.row_threads() * self.col_threads()
    }

    /// Rows a block owns.
    pub open spec fn owned(self) -> int {
        if self.owns_keys {
            self.keys as int
        } else {
            self.queries as int
        }
    }

    /// Rows of one streamed tile.
    pub open spec fn streamed(self) -> int {
        if self.owns_keys {
            self.queries as int
        } else {
            self.keys as int
        }
    }

    /// Owned rows each thread accumulates.
    pub open spec fn acc_rows(self) -> int {
        self.owned() / self.row_threads()
    }

    /// Features each thread accumulates of each of its rows.
    pub open spec fn acc_features(self) -> int {
        TILE_HD as int / self.col_threads()
    }

    /// Every cut is even, and a block is launchable.
    pub open spec fn well_formed(self) -> bool {
        &&& 0 < self.tm <= self.queries <= 1024
        &&& 0 < self.tn <= self.keys <= 1024
        &&& self.queries % self.tm == 0
        &&& self.keys % self.tn == 0
        &&& 0 < self.threads() <= 1024
        &&& TILE_HD as int % self.col_threads() == 0
        &&& self.owned() % self.row_threads() == 0
    }

    proof fn lemma_cut(self, rows: int, cols: int, acc_rows: int, acc_features: int)
        requires
            0 < self.tm <= self.queries <= 1024,
            0 < self.tn <= self.keys <= 1024,
            0 < rows,
            0 < cols,
            self.queries == self.tm * rows,
            self.keys == self.tn * cols,
            self.owned() == rows * acc_rows,
            TILE_HD == cols * acc_features,
            0 < rows * cols <= 1024,
        ensures
            self.well_formed(),
            self.threads() == rows * cols,
            self.acc_rows() == acc_rows,
            self.acc_features() == acc_features,
    {
        lemma_split(self.queries as int, self.tm as int, rows, 0);
        lemma_split(self.keys as int, self.tn as int, cols, 0);
        lemma_split(self.owned(), rows, acc_rows, 0);
        lemma_split(TILE_HD as int, cols, acc_features, 0);
    }

    proof fn lemma_counts(self)
        requires
            self.well_formed(),
        ensures
            0 < self.row_threads() <= 1024,
            0 < self.col_threads() <= 1024,
            self.tm * self.row_threads() == self.queries,
            self.tn * self.col_threads() == self.keys,
            self.acc_rows() * self.row_threads() == self.owned(),
            self.acc_features() * self.col_threads() == TILE_HD,
            0 < self.acc_rows() <= 1024,
            0 < self.acc_features() <= 128,
            self.col_threads() * self.row_threads() == self.threads(),
    {
        let rows = self.row_threads();
        let cols = self.col_threads();
        vstd::arithmetic::div_mod::lemma_fundamental_div_mod(
            self.queries as int,
            self.tm as int,
        );
        vstd::arithmetic::div_mod::lemma_fundamental_div_mod(self.keys as int, self.tn as int);
        assert(0 < rows <= 1024) by (nonlinear_arith)
            requires
                self.queries == self.tm * rows,
                0 < self.queries <= 1024,
                0 < self.tm,
        ;
        assert(0 < cols <= 1024) by (nonlinear_arith)
            requires
                self.keys == self.tn * cols,
                0 < self.keys <= 1024,
                0 < self.tn,
        ;
        vstd::arithmetic::div_mod::lemma_fundamental_div_mod(self.owned(), rows);
        vstd::arithmetic::div_mod::lemma_fundamental_div_mod(128, cols);
        let ar = self.acc_rows();
        let af = self.acc_features();
        assert(0 < ar <= 1024 && ar * rows == rows * ar) by (nonlinear_arith)
            requires
                self.owned() == rows * ar,
                0 < self.owned() <= 1024,
                0 < rows,
        ;
        assert(0 < af <= 128 && af * cols == cols * af) by (nonlinear_arith)
            requires
                128 == cols * af,
                0 < cols,
        ;
        assert(cols * rows == rows * cols) by (nonlinear_arith);
    }

    /// Row and column of thread `tid` in the block's grid of fragments.
    pub fn fragment(&self, tid: usize) -> (cell: (usize, usize))
        requires
            self.well_formed(),
            tid < self.threads(),
        ensures
            cell.0 == tid as int / self.col_threads(),
            cell.1 == tid as int % self.col_threads(),
            cell.0 == tid as int / (self.keys as int / self.tn as int),
            cell.1 == tid as int % (self.keys as int / self.tn as int),
            cell.0 < self.row_threads(),
            cell.1 < self.col_threads(),
    {
        proof {
            self.lemma_counts();
            lemma_split_bounds(tid as int, self.col_threads(), self.row_threads());
        }
        let cols: usize = self.keys / self.tn;
        (tid / cols, tid % cols)
    }

    /// Row and column of the score tile that thread `tid` computes as entry
    /// `(i, j)` of its fragment.
    pub open spec fn score_cell_of(self, tid: int, i: int, j: int) -> (int, int) {
        (
            self.tm * (tid / self.col_threads()) + i,
            self.tn * (tid % self.col_threads()) + j,
        )
    }

    /// Query and key, within the score tile, of entry `(i, j)` of the fragment
    /// of thread `tid`.
    pub fn score_cell(&self, tid: usize, i: usize, j: usize) -> (cell: (usize, usize))
        requires
            self.well_formed(),
            tid < self.threads(),
            i < self.tm,
            j < self.tn,
        ensures
            (cell.0 as int, cell.1 as int) == self.score_cell_of(tid as int, i as int, j as int),
            cell.0 == self.tm * (tid as int / (self.keys as int / self.tn as int)) + i,
            cell.1 == self.tn * (tid as int % (self.keys as int / self.tn as int)) + j,
            cell.0 < self.queries,
            cell.1 < self.keys,
    {
        let (row, col) = self.fragment(tid);
        proof {
            self.lemma_counts();
            lemma_join_bounds(row as int, i as int, self.tm as int, self.row_threads());
            lemma_join_bounds(col as int, j as int, self.tn as int, self.col_threads());
        }
        (self.tm * row + i, self.tn * col + j)
    }

    /// Owned row and feature that thread `tid` accumulates as entry `(i, d)`.
    pub open spec fn owned_cell_of(self, tid: int, i: int, d: int) -> (int, int) {
        (
            self.acc_rows() * (tid / self.col_threads()) + i,
            self.acc_features() * (tid % self.col_threads()) + d,
        )
    }

    /// Row, within the block, and feature of entry `(i, d)` of the output
    /// fragment of thread `tid`.
    pub fn owned_cell(&self, tid: usize, i: usize, d: usize) -> (cell: (usize, usize))
        requires
            self.well_formed(),
            tid < self.threads(),
            i < self.acc_rows(),
            d < self.acc_features(),
        ensures
            (cell.0 as int, cell.1 as int) == self.owned_cell_of(tid as int, i as int, d as int),
            cell.0 == ((if self.owns_keys {
                self.keys as int
            } else {
                self.queries as int
            }) / (self.queries as int / self.tm as int)) * (tid as int / (self.keys as int
                / self.tn as int)) + i,
            cell.1 == (128int / (self.keys as int / self.tn as int)) * (tid as int % (self.keys as int
                / self.tn as int)) + d,
            cell.0 < self.owned(),
            cell.1 < TILE_HD,
    {
        let (row, col) = self.fragment(tid);
        proof {
            self.lemma_counts();
            lemma_join_bounds(row as int, i as int, self.acc_rows(), self.row_threads());
            lemma_join_bounds(col as int, d as int, self.acc_features(), self.col_threads());
        }
        let row_threads: usize = self.queries / self.tm;
        let owned: usize = if self.owns_keys {
            self.keys
        } else {
            self.queries
        };
        let acc_rows: usize = owned / row_threads;
        let acc_features: usize = TILE_HD / (self.keys / self.tn);
        (acc_rows * row + i, acc_features * col + d)
    }

    /// Law: the fragments tile the score tile. Each of its cells is computed by
    /// exactly one thread, as exactly one entry.
    pub proof fn law_score_cells_are_a_partition(self, row: int, col: int)
        requires
            self.well_formed(),
            0 <= row < self.queries,
            0 <= col < self.keys,
        ensures
            exists|tid: int, i: int, j: int|
                0 <= tid < self.threads() && 0 <= i < self.tm && 0 <= j < self.tn
                    && #[trigger] self.score_cell_of(tid, i, j) == (row, col),
            forall|t1: int, i1: int, j1: int, t2: int, i2: int, j2: int|
                0 <= t1 < self.threads() && 0 <= i1 < self.tm && 0 <= j1 < self.tn && 0 <= t2
                    < self.threads() && 0 <= i2 < self.tm && 0 <= j2 < self.tn
                    && #[trigger] self.score_cell_of(t1, i1, j1) == (row, col)
                    && #[trigger] self.score_cell_of(t2, i2, j2) == (row, col) ==> t1 == t2 && i1
                    == i2 && j1 == j2,
    {
        self.lemma_counts();
        let cols = self.col_threads();
        lemma_split_bounds(row, self.tm as int, self.row_threads());
        lemma_split_bounds(col, self.tn as int, cols);
        let fr = row / self.tm as int;
        let fc = col / self.tn as int;
        let tid = cols * fr + fc;
        lemma_join_bounds(fr, fc, cols, self.row_threads());
        lemma_split(tid, cols, fr, fc);
        assert(self.score_cell_of(tid, row % self.tm as int, col % self.tn as int) == (row, col));
        assert forall|t1: int, i1: int, j1: int, t2: int, i2: int, j2: int|
            0 <= t1 < self.threads() && 0 <= i1 < self.tm && 0 <= j1 < self.tn && 0 <= t2
                < self.threads() && 0 <= i2 < self.tm && 0 <= j2 < self.tn
                && #[trigger] self.score_cell_of(t1, i1, j1) == (row, col)
                && #[trigger] self.score_cell_of(t2, i2, j2) == (row, col) implies t1 == t2 && i1
            == i2 && j1 == j2 by {
            lemma_split_bounds(t1, cols, self.row_threads());
            lemma_split_bounds(t2, cols, self.row_threads());
            lemma_join_injective(self.tm as int, t1 / cols, i1, t2 / cols, i2);
            lemma_join_injective(self.tn as int, t1 % cols, j1, t2 % cols, j2);
        }
    }

    /// Law: the output fragments tile the block's `[owned, 128]` output. Each
    /// of its cells is accumulated by exactly one thread, as exactly one entry.
    pub proof fn law_owned_cells_are_a_partition(self, row: int, feature: int)
        requires
            self.well_formed(),
            0 <= row < self.owned(),
            0 <= feature < TILE_HD,
        ensures
            exists|tid: int, i: int, d: int|
                0 <= tid < self.threads() && 0 <= i < self.acc_rows() && 0 <= d
                    < self.acc_features() && #[trigger] self.owned_cell_of(tid, i, d) == (
                    row,
                    feature,
                ),
            forall|t1: int, i1: int, d1: int, t2: int, i2: int, d2: int|
                0 <= t1 < self.threads() && 0 <= i1 < self.acc_rows() && 0 <= d1
                    < self.acc_features() && 0 <= t2 < self.threads() && 0 <= i2 < self.acc_rows()
                    && 0 <= d2 < self.acc_features() && #[trigger] self.owned_cell_of(t1, i1, d1)
                    == (row, feature) && #[trigger] self.owned_cell_of(t2, i2, d2) == (row, feature)
                    ==> t1 == t2 && i1 == i2 && d1 == d2,
    {
        self.lemma_counts();
        let cols = self.col_threads();
        lemma_split_bounds(row, self.acc_rows(), self.row_threads());
        lemma_split_bounds(feature, self.acc_features(), cols);
        let fr = row / self.acc_rows();
        let fc = feature / self.acc_features();
        let tid = cols * fr + fc;
        lemma_join_bounds(fr, fc, cols, self.row_threads());
        lemma_split(tid, cols, fr, fc);
        assert(self.owned_cell_of(tid, row % self.acc_rows(), feature % self.acc_features()) == (
            row,
            feature,
        ));
        assert forall|t1: int, i1: int, d1: int, t2: int, i2: int, d2: int|
            0 <= t1 < self.threads() && 0 <= i1 < self.acc_rows() && 0 <= d1 < self.acc_features()
                && 0 <= t2 < self.threads() && 0 <= i2 < self.acc_rows() && 0 <= d2
                < self.acc_features() && #[trigger] self.owned_cell_of(t1, i1, d1) == (row, feature)
                && #[trigger] self.owned_cell_of(t2, i2, d2) == (row, feature) implies t1 == t2
            && i1 == i2 && d1 == d2 by {
            lemma_split_bounds(t1, cols, self.row_threads());
            lemma_split_bounds(t2, cols, self.row_threads());
            lemma_join_injective(self.acc_rows(), t1 / cols, i1, t2 / cols, i2);
            lemma_join_injective(self.acc_features(), t1 % cols, d1, t2 % cols, d2);
        }
    }
}

/// Packed sequences that one launch runs over: `[sequences, sequence_length,
/// heads, 128]` activations and one statistic per `(row, head)`.
#[derive(Clone, Copy, PartialEq, Eq, Structural, Debug)]
pub struct PackedShape {
    pub sequences: usize,
    pub sequence_length: usize,
    pub heads: usize,
}

/// The rows one block owns.
#[derive(Clone, Copy, PartialEq, Eq, Structural, Debug)]
pub struct TileBlock {
    pub sequence: usize,
    pub head: usize,
    /// First owned row within the sequence.
    pub start: usize,
}

impl PackedShape {
    /// Statistics the launch keeps, one per `(row, head)`.
    pub open spec fn statistics(self) -> int {
        self.heads * (self.sequence_length * self.sequences)
    }

    /// Elements of one activation.
    pub open spec fn elements(self) -> int {
        TILE_HD * self.statistics()
    }

    /// Every index fits the machine.
    pub open spec fn well_formed(self) -> bool {
        &&& self.elements() <= usize::MAX
        &&& self.sequence_length + 1024 <= usize::MAX
    }

    /// Statistic of a `(row, head)` of a sequence.
    pub open spec fn statistic(self, sequence: int, row: int, head: int) -> int {
        self.heads * (self.sequence_length * sequence + row) + head
    }

    /// Element of a `(row, head, feature)` of a sequence.
    pub open spec fn element(self, sequence: int, row: int, head: int, feature: int) -> int {
        TILE_HD * self.statistic(sequence, row, head) + feature
    }

    proof fn lemma_statistic_bounds(self, sequence: int, row: int, head: int)
        requires
            0 <= sequence < self.sequences,
            0 <= row < self.sequence_length,
            0 <= head < self.heads,
        ensures
            0 <= self.sequence_length * sequence + row < self.sequence_length * self.sequences,
            0 <= self.statistic(sequence, row, head) < self.statistics(),
    {
        lemma_join_bounds(sequence, row, self.sequence_length as int, self.sequences as int);
        lemma_join_bounds(
            self.sequence_length * sequence + row,
            head,
            self.heads as int,
            self.sequence_length * self.sequences,
        );
    }

    /// Index of the statistic of a `(row, head)`.
    pub fn statistic_index(&self, sequence: usize, row: usize, head: usize) -> (index: usize)
        requires
            self.well_formed(),
            sequence < self.sequences,
            row < self.sequence_length,
            head < self.heads,
        ensures
            index == self.statistic(sequence as int, row as int, head as int),
            index == self.heads * (self.sequence_length * sequence + row) + head,
            index < self.statistics(),
    {
        proof {
            self.lemma_statistic_bounds(sequence as int, row as int, head as int);
            let packed = self.sequence_length * sequence + row;
            assert(sequence * self.sequence_length == self.sequence_length * sequence)
                by (nonlinear_arith);
            assert(packed * self.heads == self.heads * packed) by (nonlinear_arith);
            assert(0 <= self.sequence_length * sequence) by (nonlinear_arith);
            assert(packed <= self.heads * packed) by (nonlinear_arith)
                requires
                    1 <= self.heads,
                    0 <= packed,
            ;
        }
        (sequence * self.sequence_length + row) * self.heads + head
    }

    /// Index of an element.
    pub fn element_index(
        &self,
        sequence: usize,
        row: usize,
        head: usize,
        feature: usize,
    ) -> (index: usize)
        requires
            self.well_formed(),
            sequence < self.sequences,
            row < self.sequence_length,
            head < self.heads,
            feature < TILE_HD,
        ensures
            index == self.element(sequence as int, row as int, head as int, feature as int),
            index == 128 * (self.heads * (self.sequence_length * sequence + row) + head) + feature,
            index < self.elements(),
    {
        let statistic: usize = self.statistic_index(sequence, row, head);
        statistic * TILE_HD + feature
    }

    /// Law: `(sequence, row, head, feature)` and the element index determine
    /// each other.
    pub proof fn law_elements_are_a_bijection(self, element: int)
        requires
            0 <= element < self.elements(),
        ensures
            exists|sequence: int, row: int, head: int, feature: int|
                #![trigger self.holds(sequence, row, head, feature, element)]
                self.holds(sequence, row, head, feature, element),
            forall|
                s1: int,
                r1: int,
                h1: int,
                f1: int,
                s2: int,
                r2: int,
                h2: int,
                f2: int,
            |
                #![trigger self.holds(s1, r1, h1, f1, element), self.holds(s2, r2, h2, f2, element)]
                self.holds(s1, r1, h1, f1, element) && self.holds(s2, r2, h2, f2, element) ==> s1
                    == s2 && r1 == r2 && h1 == h2 && f1 == f2,
    {
        lemma_split_bounds(element, 128, self.statistics());
        let statistic = element / 128;
        let packed_rows = self.sequence_length * self.sequences;
        assert(0 < self.heads && 0 < packed_rows) by (nonlinear_arith)
            requires
                0 <= statistic < self.heads * packed_rows,
                0 <= self.heads,
                0 <= packed_rows,
        ;
        lemma_split_bounds(statistic, self.heads as int, packed_rows);
        let packed = statistic / self.heads as int;
        assert(0 < self.sequence_length) by (nonlinear_arith)
            requires
                0 < packed_rows,
                packed_rows == self.sequence_length * self.sequences,
                0 <= self.sequence_length,
        ;
        lemma_split_bounds(packed, self.sequence_length as int, self.sequences as int);
        assert(self.holds(
            packed / self.sequence_length as int,
            packed % self.sequence_length as int,
            statistic % self.heads as int,
            element % 128,
            element,
        ));
        assert forall|
            s1: int,
            r1: int,
            h1: int,
            f1: int,
            s2: int,
            r2: int,
            h2: int,
            f2: int,
        |
            #![trigger self.holds(s1, r1, h1, f1, element), self.holds(s2, r2, h2, f2, element)]
            self.holds(s1, r1, h1, f1, element) && self.holds(s2, r2, h2, f2, element) implies s1
            == s2 && r1 == r2 && h1 == h2 && f1 == f2 by {
            let t = self.sequence_length as int;
            lemma_join_injective(
                128,
                self.statistic(s1, r1, h1),
                f1,
                self.statistic(s2, r2, h2),
                f2,
            );
            lemma_join_injective(self.heads as int, t * s1 + r1, h1, t * s2 + r2, h2);
            lemma_join_injective(t, s1, r1, s2, r2);
        }
    }

    /// `element` is the element of a `(sequence, row, head, feature)` in range.
    pub open spec fn holds(
        self,
        sequence: int,
        row: int,
        head: int,
        feature: int,
        element: int,
    ) -> bool {
        &&& 0 <= sequence < self.sequences
        &&& 0 <= row < self.sequence_length
        &&& 0 <= head < self.heads
        &&& 0 <= feature < TILE_HD
        &&& self.element(sequence, row, head, feature) == element
    }

    /// Element that slot `index` of a `[rows, 128]` shared tile is filled from,
    /// when the tile starts at row `first` of the block's sequence. A row past
    /// the end of the sequence has none and is filled with zero.
    pub fn staged(&self, block: &TileBlock, first: usize, index: usize) -> (source: Option<usize>)
        requires
            self.well_formed(),
            block.sequence < self.sequences,
            block.head < self.heads,
            first <= self.sequence_length,
            index < 1024 * TILE_HD,
        ensures
            match source {
                Some(element) => {
                    &&& first + index / TILE_HD < self.sequence_length
                    &&& element == self.element(
                        block.sequence as int,
                        first + index as int / TILE_HD as int,
                        block.head as int,
                        index as int % TILE_HD as int,
                    )
                    &&& element < self.elements()
                },
                None => self.sequence_length <= first + index / TILE_HD,
            },
            source is Some <==> first + index as int / 128 < self.sequence_length,
            source is Some ==> source->0 == 128 * (self.heads * (self.sequence_length
                * block.sequence + (first + index as int / 128)) + block.head) + index as int % 128,
    {
        let row: usize = first + index / TILE_HD;
        if row < self.sequence_length {
            Some(self.element_index(block.sequence, row, block.head, index % TILE_HD))
        } else {
            None
        }
    }

    /// Statistic that slot `index` of a tile's row statistics is filled from;
    /// a row past the end of the sequence has none and is filled with zero.
    pub fn staged_statistic(&self, block: &TileBlock, first: usize, index: usize) -> (source: Option<
        usize,
    >)
        requires
            self.well_formed(),
            block.sequence < self.sequences,
            block.head < self.heads,
            first <= self.sequence_length,
            index < 1024,
        ensures
            match source {
                Some(statistic) => {
                    &&& first + index < self.sequence_length
                    &&& statistic == self.statistic(
                        block.sequence as int,
                        first + index,
                        block.head as int,
                    )
                    &&& statistic < self.statistics()
                },
                None => self.sequence_length <= first + index,
            },
            source is Some <==> first + index < self.sequence_length,
            source is Some ==> source->0 == self.heads * (self.sequence_length * block.sequence + (
            first + index)) + block.head,
    {
        let row: usize = first + index;
        if row < self.sequence_length {
            Some(self.statistic_index(block.sequence, row, block.head))
        } else {
            None
        }
    }
}

/// The rows that the block at grid position `position` owns, if any: the grid
/// covers the sequence, and a block past its end has nothing to do.
pub fn tile_block(tiling: &Tiling, shape: &PackedShape, position: (usize, usize, usize)) -> (block:
    Option<TileBlock>)
    requires
        tiling.well_formed(),
        position.0 * tiling.owned() <= usize::MAX,
    ensures
        match block {
            Some(found) => {
                &&& found.start == position.0 * tiling.owned()
                &&& found.head == position.1
                &&& found.sequence == position.2
                &&& found.start < shape.sequence_length
            },
            None => shape.sequence_length <= position.0 * tiling.owned(),
        },
        block is Some ==> block->0.start == position.0 * if tiling.owns_keys {
            tiling.keys
        } else {
            tiling.queries
        },
        block is Some <==> position.0 * (if tiling.owns_keys {
            tiling.keys
        } else {
            tiling.queries
        }) < shape.sequence_length,
{
    let owned: usize = if tiling.owns_keys {
        tiling.keys
    } else {
        tiling.queries
    };
    let start: usize = position.0 * owned;
    if start < shape.sequence_length {
        Some(TileBlock { sequence: position.2, head: position.1, start })
    } else {
        None
    }
}

/// Element that thread `tid` of a block writes its entry `(i, d)` to; an entry
/// of a row past the end of the sequence is not written.
pub fn output_element(
    tiling: &Tiling,
    shape: &PackedShape,
    block: &TileBlock,
    tid: usize,
    i: usize,
    d: usize,
) -> (target: Option<usize>)
    requires
        tiling.well_formed(),
        shape.well_formed(),
        block.sequence < shape.sequences,
        block.head < shape.heads,
        block.start < shape.sequence_length,
        tid < tiling.threads(),
        i < tiling.acc_rows(),
        d < tiling.acc_features(),
    ensures
        ({
            let cell = tiling.owned_cell_of(tid as int, i as int, d as int);
            match target {
                Some(element) => {
                    &&& block.start + cell.0 < shape.sequence_length
                    &&& element == shape.element(
                        block.sequence as int,
                        block.start + cell.0,
                        block.head as int,
                        cell.1,
                    )
                    &&& element < shape.elements()
                },
                None => shape.sequence_length <= block.start + cell.0,
            }
        }),
        ({
            let cols = tiling.keys as int / tiling.tn as int;
            let owned = if tiling.owns_keys {
                tiling.keys as int
            } else {
                tiling.queries as int
            };
            let row = block.start + (owned / (tiling.queries as int / tiling.tm as int)) * (
            tid as int / cols) + i;
            let feature = (128int / cols) * (tid as int % cols) + d;
            &&& target is Some <==> row < shape.sequence_length
            &&& target is Some ==> target->0 == 128 * (shape.heads * (shape.sequence_length
                * block.sequence + row) + block.head) + feature
        }),
{
    let (row, feature) = tiling.owned_cell(tid, i, d);
    let owned_row: usize = block.start + row;
    if owned_row < shape.sequence_length {
        Some(shape.element_index(block.sequence, owned_row, block.head, feature))
    } else {
        None
    }
}

/// Entry `(i, d)` of thread `tid` of the block at `(x, head, sequence)` is what
/// writes `element`.
pub open spec fn writes(
    tiling: Tiling,
    shape: PackedShape,
    x: int,
    head: int,
    sequence: int,
    tid: int,
    i: int,
    d: int,
    element: int,
) -> bool {
    let cell = tiling.owned_cell_of(tid, i, d);
    &&& 0 <= x < ceil_div(shape.sequence_length as int, tiling.owned())
    &&& 0 <= tid < tiling.threads()
    &&& 0 <= i < tiling.acc_rows()
    &&& 0 <= d < tiling.acc_features()
    &&& shape.holds(sequence, tiling.owned() * x + cell.0, head, cell.1, element)
}

/// Law: a launch of a tiled kernel writes each element of its output exactly
/// once: one block, one thread and one entry own it.
pub proof fn law_each_element_is_written_once(tiling: Tiling, shape: PackedShape, element: int)
    requires
        tiling.well_formed(),
        0 <= element < shape.elements(),
    ensures
        exists|x: int, head: int, sequence: int, tid: int, i: int, d: int|
            #![trigger writes(tiling, shape, x, head, sequence, tid, i, d, element)]
            writes(tiling, shape, x, head, sequence, tid, i, d, element),
        forall|
            x1: int,
            h1: int,
            s1: int,
            t1: int,
            i1: int,
            d1: int,
            x2: int,
            h2: int,
            s2: int,
            t2: int,
            i2: int,
            d2: int,
        |
            #![trigger writes(tiling, shape, x1, h1, s1, t1, i1, d1, element), writes(tiling, shape, x2, h2, s2, t2, i2, d2, element)]
            writes(tiling, shape, x1, h1, s1, t1, i1, d1, element) && writes(
                tiling,
                shape,
                x2,
                h2,
                s2,
                t2,
                i2,
                d2,
                element,
            ) ==> x1 == x2 && h1 == h2 && s1 == s2 && t1 == t2 && i1 == i2 && d1 == d2,
{
    tiling.lemma_counts();
    shape.law_elements_are_a_bijection(element);
    let owned = tiling.owned();
    let t = shape.sequence_length as int;
    let blocks = ceil_div(t, owned);
    lemma_ceil_div(t, owned);
    let (sequence, row, head, feature) = choose|sequence: int, row: int, head: int, feature: int|
        #![trigger shape.holds(sequence, row, head, feature, element)]
        shape.holds(sequence, row, head, feature, element);
    assert(shape.holds(sequence, row, head, feature, element));
    lemma_split_bounds(row, owned, blocks);
    let x = row / owned;
    let within = row % owned;
    tiling.law_owned_cells_are_a_partition(within, feature);
    let (tid, i, d) = choose|tid: int, i: int, d: int|
        0 <= tid < tiling.threads() && 0 <= i < tiling.acc_rows() && 0 <= d < tiling.acc_features()
            && #[trigger] tiling.owned_cell_of(tid, i, d) == (within, feature);
    assert(tiling.owned_cell_of(tid, i, d) == (within, feature));
    assert(writes(tiling, shape, x, head, sequence, tid, i, d, element));
    assert forall|
        x1: int,
        h1: int,
        s1: int,
        t1: int,
        i1: int,
        d1: int,
        x2: int,
        h2: int,
        s2: int,
        t2: int,
        i2: int,
        d2: int,
    |
        #![trigger writes(tiling, shape, x1, h1, s1, t1, i1, d1, element), writes(tiling, shape, x2, h2, s2, t2, i2, d2, element)]
        writes(tiling, shape, x1, h1, s1, t1, i1, d1, element) && writes(
            tiling,
            shape,
            x2,
            h2,
            s2,
            t2,
            i2,
            d2,
            element,
        ) implies x1 == x2 && h1 == h2 && s1 == s2 && t1 == t2 && i1 == i2 && d1 == d2 by {
        let c1 = tiling.owned_cell_of(t1, i1, d1);
        let c2 = tiling.owned_cell_of(t2, i2, d2);
        assert(shape.holds(s1, owned * x1 + c1.0, h1, c1.1, element));
        assert(shape.holds(s2, owned * x2 + c2.0, h2, c2.1, element));
        lemma_cell_bounds(tiling, t1, i1, d1);
        lemma_cell_bounds(tiling, t2, i2, d2);
        lemma_join_injective(owned, x1, c1.0, x2, c2.0);
        tiling.law_owned_cells_are_a_partition(c1.0, c1.1);
    }
}

/// Slot `index` of the row statistics of the block at `(x, head, sequence)`,
/// which thread `tid` takes in its round `round`, is what writes `statistic`.
pub open spec fn writes_statistic(
    tiling: Tiling,
    shape: PackedShape,
    x: int,
    head: int,
    sequence: int,
    tid: int,
    round: int,
    statistic: int,
) -> bool {
    let index = tiling.threads() * round + tid;
    let row = tiling.owned() * x + index;
    &&& 0 <= x < ceil_div(shape.sequence_length as int, tiling.owned())
    &&& 0 <= tid < tiling.threads()
    &&& 0 <= round
    &&& index < tiling.owned()
    &&& 0 <= head < shape.heads
    &&& 0 <= sequence < shape.sequences
    &&& row < shape.sequence_length
    &&& shape.statistic(sequence, row, head) == statistic
}

/// Law: a launch of a tiled kernel writes each `(row, head)` statistic exactly
/// once: one block and one round of one thread own it.
pub proof fn law_each_statistic_is_written_once(tiling: Tiling, shape: PackedShape, statistic: int)
    requires
        tiling.well_formed(),
        0 <= statistic < shape.statistics(),
    ensures
        exists|x: int, head: int, sequence: int, tid: int, round: int|
            #![trigger writes_statistic(tiling, shape, x, head, sequence, tid, round, statistic)]
            writes_statistic(tiling, shape, x, head, sequence, tid, round, statistic),
        forall|
            x1: int,
            h1: int,
            s1: int,
            t1: int,
            r1: int,
            x2: int,
            h2: int,
            s2: int,
            t2: int,
            r2: int,
        |
            #![trigger writes_statistic(tiling, shape, x1, h1, s1, t1, r1, statistic), writes_statistic(tiling, shape, x2, h2, s2, t2, r2, statistic)]
            writes_statistic(tiling, shape, x1, h1, s1, t1, r1, statistic) && writes_statistic(
                tiling,
                shape,
                x2,
                h2,
                s2,
                t2,
                r2,
                statistic,
            ) ==> x1 == x2 && h1 == h2 && s1 == s2 && t1 == t2 && r1 == r2,
{
    tiling.lemma_counts();
    let owned = tiling.owned();
    let threads = tiling.threads();
    let t = shape.sequence_length as int;
    lemma_ceil_div(t, owned);
    shape.law_elements_are_a_bijection(128 * statistic);
    let (sequence, row, head, feature) = choose|sequence: int, row: int, head: int, feature: int|
        #![trigger shape.holds(sequence, row, head, feature, 128 * statistic)]
        shape.holds(sequence, row, head, feature, 128 * statistic);
    assert(shape.holds(sequence, row, head, feature, 128 * statistic));
    lemma_join_injective(128, shape.statistic(sequence, row, head), feature, statistic, 0);
    lemma_split_bounds(row, owned, ceil_div(t, owned));
    let index = row % owned;
    assert(index < threads * owned) by (nonlinear_arith)
        requires
            0 <= index < owned,
            1 <= threads,
    ;
    lemma_split_bounds(index, threads, owned);
    assert(writes_statistic(
        tiling,
        shape,
        row / owned,
        head,
        sequence,
        index % threads,
        index / threads,
        statistic,
    ));
    assert forall|
        x1: int,
        h1: int,
        s1: int,
        t1: int,
        r1: int,
        x2: int,
        h2: int,
        s2: int,
        t2: int,
        r2: int,
    |
        #![trigger writes_statistic(tiling, shape, x1, h1, s1, t1, r1, statistic), writes_statistic(tiling, shape, x2, h2, s2, t2, r2, statistic)]
        writes_statistic(tiling, shape, x1, h1, s1, t1, r1, statistic) && writes_statistic(
            tiling,
            shape,
            x2,
            h2,
            s2,
            t2,
            r2,
            statistic,
        ) implies x1 == x2 && h1 == h2 && s1 == s2 && t1 == t2 && r1 == r2 by {
        let (i1, i2) = (threads * r1 + t1, threads * r2 + t2);
        let (w1, w2) = (owned * x1 + i1, owned * x2 + i2);
        assert(0 <= threads * r1 && 0 <= threads * r2 && 0 <= owned * x1 && 0 <= owned * x2)
            by (nonlinear_arith)
            requires
                0 <= r1,
                0 <= r2,
                0 <= x1,
                0 <= x2,
                0 < threads,
                0 < owned,
        ;
        assert(shape.holds(s1, w1, h1, 0, 128 * statistic));
        assert(shape.holds(s2, w2, h2, 0, 128 * statistic));
        lemma_join_injective(owned, x1, i1, x2, i2);
        lemma_join_injective(threads, r1, t1, r2, t2);
    }
}

proof fn lemma_cell_bounds(tiling: Tiling, tid: int, i: int, d: int)
    requires
        tiling.well_formed(),
        0 <= tid < tiling.threads(),
        0 <= i < tiling.acc_rows(),
        0 <= d < tiling.acc_features(),
    ensures
        0 <= tiling.owned_cell_of(tid, i, d).0 < tiling.owned(),
        0 <= tiling.owned_cell_of(tid, i, d).1 < TILE_HD,
{
    tiling.lemma_counts();
    lemma_split_bounds(tid, tiling.col_threads(), tiling.row_threads());
    lemma_join_bounds(
        tid / tiling.col_threads(),
        i,
        tiling.acc_rows(),
        tiling.row_threads(),
    );
    lemma_join_bounds(
        tid % tiling.col_threads(),
        d,
        tiling.acc_features(),
        tiling.col_threads(),
    );
}

/// Last query row of the block that starts at `start`.
pub open spec fn last_query(tiling: Tiling, start: int, sequence_length: int) -> int {
    if start + tiling.queries < sequence_length {
        start + tiling.queries - 1
    } else {
        sequence_length - 1
    }
}

/// Key tiles that a query block starting at row `start` streams.
pub fn key_tile_count(tiling: &Tiling, start: usize, sequence_length: usize) -> (count: usize)
    requires
        tiling.well_formed(),
        start < sequence_length,
        sequence_length + 1024 <= usize::MAX,
    ensures
        count == last_query(*tiling, start as int, sequence_length as int) / tiling.keys as int + 1,
        count == (if start + tiling.queries < sequence_length {
            start + tiling.queries - 1
        } else {
            sequence_length - 1
        }) / tiling.keys as int + 1,
        count <= sequence_length,
{
    let last: usize = if start + tiling.queries < sequence_length {
        start + tiling.queries - 1
    } else {
        sequence_length - 1
    };
    proof {
        vstd::arithmetic::div_mod::lemma_div_nonincreasing(last as int, tiling.keys as int);
        vstd::arithmetic::div_mod::lemma_div_pos_is_pos(last as int, tiling.keys as int);
    }
    last / tiling.keys + 1
}

/// Query tiles that a key block starting at row `start` streams: from the first
/// up to but not the second.
pub fn query_tile_range(tiling: &Tiling, start: usize, sequence_length: usize) -> (range: (
    usize,
    usize,
))
    requires
        tiling.well_formed(),
        start < sequence_length,
        sequence_length + 1024 <= usize::MAX,
    ensures
        range.0 == start as int / tiling.queries as int,
        range.1 == ceil_div(sequence_length as int, tiling.queries as int),
        range.1 == (sequence_length + tiling.queries - 1) / tiling.queries as int,
{
    (start / tiling.queries, (sequence_length + tiling.queries - 1) / tiling.queries)
}

/// Whether the forward keeps the score of a query and a key rather than mask
/// it.
pub fn forward_keeps(query: usize, key: usize, sequence_length: usize) -> (keeps: bool)
    ensures
        keeps == (attends(query as int, key as int) && key < sequence_length),
        keeps == (key <= query && key < sequence_length),
{
    key <= query && key < sequence_length
}

/// Whether the backward kernels form a gradient for a query and a key.
pub fn backward_keeps(query: usize, key: usize, sequence_length: usize) -> (keeps: bool)
    ensures
        keeps == (attends(query as int, key as int) && key < sequence_length && query
            < sequence_length),
        keeps == (key <= query && query < sequence_length),
{
    key <= query && key < sequence_length && query < sequence_length
}

/// Law: the key tiles of a query block hold every key that a query of the block
/// attends to, and each of them holds at least one.
pub proof fn law_key_tiles_are_the_attended_ones(
    tiling: Tiling,
    start: int,
    sequence_length: int,
    query: int,
    key: int,
    tile: int,
)
    requires
        tiling.well_formed(),
        0 <= start < sequence_length,
        start <= query < start + tiling.queries,
        query < sequence_length,
        0 <= key,
    ensures
        ({
            let last = last_query(tiling, start, sequence_length);
            let count = last / tiling.keys as int + 1;
            &&& start <= last < sequence_length
            &&& last < start + tiling.queries
            &&& attends(query, key) ==> 0 <= key / tiling.keys as int && key / (tiling.keys as int)
                < count
            &&& 0 <= tile < count ==> attends(last, tiling.keys * tile)
        }),
{
    let last = last_query(tiling, start, sequence_length);
    let keys = tiling.keys as int;
    if attends(query, key) {
        crate::arith::lemma_div_monotone(key, last, keys);
        vstd::arithmetic::div_mod::lemma_div_pos_is_pos(key, keys);
    }
    if 0 <= tile < last / keys + 1 {
        vstd::arithmetic::div_mod::lemma_fundamental_div_mod(last, keys);
        vstd::arithmetic::div_mod::lemma_mod_pos_bound(last, keys);
        lemma_mul_monotone(tile, last / keys, keys);
    }
}

/// Law: the query tiles of a key block hold every query that attends to a key
/// of the block, and each of them holds at least one.
pub proof fn law_query_tiles_are_the_attending_ones(
    tiling: Tiling,
    start: int,
    sequence_length: int,
    query: int,
    key: int,
    tile: int,
)
    requires
        tiling.well_formed(),
        0 <= start < sequence_length,
        start <= key,
        0 <= query < sequence_length,
    ensures
        ({
            let queries = tiling.queries as int;
            let first = start / queries;
            let end = ceil_div(sequence_length, queries);
            &&& attends(query, key) ==> first <= query / queries < end
            &&& first <= tile < end ==> exists|attending: int|
                queries * tile <= attending < queries * (tile + 1) && attending < sequence_length
                    && #[trigger] attends(attending, start)
        }),
{
    let queries = tiling.queries as int;
    let first = start / queries;
    let end = ceil_div(sequence_length, queries);
    lemma_ceil_div(sequence_length, queries);
    vstd::arithmetic::div_mod::lemma_fundamental_div_mod(start, queries);
    vstd::arithmetic::div_mod::lemma_mod_pos_bound(start, queries);
    if attends(query, key) {
        crate::arith::lemma_div_monotone(start, query, queries);
        lemma_split_bounds(query, queries, end);
    }
    if first <= tile < end {
        vstd::arithmetic::div_mod::lemma_div_pos_is_pos(start, queries);
        assert(queries * (tile + 1) == queries * tile + queries) by (nonlinear_arith);
        lemma_mul_monotone(tile, end - 1, queries);
        if tile == first {
            assert(attends(start, start));
        } else {
            lemma_mul_monotone(first + 1, tile, queries);
            assert(queries * (first + 1) == queries * first + queries) by (nonlinear_arith);
            assert(attends(queries * tile, start));
        }
    }
}

/// A shape the tiled launches accept.
pub open spec fn tiled_launchable(
    blocks: int,
    sequences: int,
    heads: int,
    head_dim: int,
) -> bool {
    &&& head_dim == TILE_HD
    &&& blocks <= u32::MAX
    &&& heads <= MAX_GRID_EXTENT
    &&& sequences <= MAX_GRID_EXTENT
}

/// Launch of one tiled kernel: a block per run of rows, head and sequence.
fn tiled_config(
    query_or_key_blocks: usize,
    sequences: usize,
    heads: usize,
    head_dim: usize,
    threads: usize,
    shared_floats: usize,
) -> (config: LaunchConfig)
    requires
        tiled_launchable(
            query_or_key_blocks as int,
            sequences as int,
            heads as int,
            head_dim as int,
        ),
        0 < threads <= 1024,
        shared_floats * 4 <= STATIC_SHARED_LIMIT,
    ensures
        config == (LaunchConfig {
            grid_dim: (query_or_key_blocks as u32, heads as u32, sequences as u32),
            block_dim: (threads as u32, 1, 1),
            shared_mem_bytes: 0,
        }),
{
    LaunchConfig {
        grid_dim: (query_or_key_blocks as u32, heads as u32, sequences as u32),
        block_dim: (threads as u32, 1, 1),
        shared_mem_bytes: 0,
    }
}

/// Launch of the tiled forward over `sequences` packed sequences.
pub fn tiled_forward_config(
    sequences: usize,
    sequence_length: usize,
    heads: usize,
    head_dim: usize,
) -> (config: LaunchConfig)
    requires
        tiled_launchable(
            ceil_div(sequence_length as int, FWD_BQ as int),
            sequences as int,
            heads as int,
            head_dim as int,
        ),
    ensures
        config == (LaunchConfig {
            grid_dim: (
                ceil_div(sequence_length as int, FWD_BQ as int) as u32,
                heads as u32,
                sequences as u32,
            ),
            block_dim: (32, 1, 1),
            shared_mem_bytes: 0,
        }),
        32 * config.grid_dim.0 >= sequence_length,
        0 < sequence_length ==> 32 * (config.grid_dim.0 - 1) < sequence_length,
        config.grid_dim.1 == heads,
        config.grid_dim.2 == sequences,
{
    proof {
        lemma_ceil_div(sequence_length as int, FWD_BQ as int);
    }
    tiled_config(
        block_count(sequence_length, FWD_BQ),
        sequences,
        heads,
        head_dim,
        (FWD_BQ / FWD_TM) * (FWD_BK / FWD_TN),
        FWD_BQ * TILE_HD + 2 * FWD_BK * TILE_HD + FWD_BQ * FWD_BK + 3 * FWD_BQ,
    )
}

/// Launch of the tiled dQ.
pub fn tiled_backward_q_config(
    sequences: usize,
    sequence_length: usize,
    heads: usize,
    head_dim: usize,
) -> (config: LaunchConfig)
    requires
        tiled_launchable(
            ceil_div(sequence_length as int, BWQ_BQ as int),
            sequences as int,
            heads as int,
            head_dim as int,
        ),
    ensures
        config == (LaunchConfig {
            grid_dim: (
                ceil_div(sequence_length as int, BWQ_BQ as int) as u32,
                heads as u32,
                sequences as u32,
            ),
            block_dim: (16, 1, 1),
            shared_mem_bytes: 0,
        }),
        16 * config.grid_dim.0 >= sequence_length,
        0 < sequence_length ==> 16 * (config.grid_dim.0 - 1) < sequence_length,
        config.grid_dim.1 == heads,
        config.grid_dim.2 == sequences,
{
    proof {
        lemma_ceil_div(sequence_length as int, BWQ_BQ as int);
    }
    tiled_config(
        block_count(sequence_length, BWQ_BQ),
        sequences,
        heads,
        head_dim,
        (BWQ_BQ / BWQ_TM) * (BWQ_BK / BWQ_TN),
        2 * BWQ_BQ * TILE_HD + 2 * BWQ_BK * TILE_HD + BWQ_BQ * BWQ_BK + 2 * BWQ_BQ,
    )
}

/// Launch of the tiled dK/dV.
pub fn tiled_backward_kv_config(
    sequences: usize,
    sequence_length: usize,
    heads: usize,
    head_dim: usize,
) -> (config: LaunchConfig)
    requires
        tiled_launchable(
            ceil_div(sequence_length as int, KV_BK as int),
            sequences as int,
            heads as int,
            head_dim as int,
        ),
    ensures
        config == (LaunchConfig {
            grid_dim: (
                ceil_div(sequence_length as int, KV_BK as int) as u32,
                heads as u32,
                sequences as u32,
            ),
            block_dim: (16, 1, 1),
            shared_mem_bytes: 0,
        }),
        16 * config.grid_dim.0 >= sequence_length,
        0 < sequence_length ==> 16 * (config.grid_dim.0 - 1) < sequence_length,
        config.grid_dim.1 == heads,
        config.grid_dim.2 == sequences,
{
    proof {
        lemma_ceil_div(sequence_length as int, KV_BK as int);
    }
    tiled_config(
        block_count(sequence_length, KV_BK),
        sequences,
        heads,
        head_dim,
        (KV_BQ / KV_TM) * (KV_BK / KV_TN),
        2 * KV_BK * TILE_HD + 2 * KV_BQ * TILE_HD + 2 * KV_BQ * KV_BK + 2 * KV_BQ,
    )
}

/// Law: a thread's score fragment is a rectangle of neighbours, and the thread
/// after it in a row of fragments has the rectangle beside it: of the block's
/// `keys / tn` threads a row, the first starts at the first key and each next one
/// `tn` keys on; the next row of threads starts `tm` queries on.
pub proof fn law_fragments_lie_side_by_side(tiling: Tiling, row: int, col: int, i: int, j: int)
    requires
        tiling.well_formed(),
        0 <= row,
        0 <= col < tiling.keys as int / tiling.tn as int,
    ensures
        ({
            let cols = tiling.keys as int / tiling.tn as int;
            &&& tiling.score_cell_of(cols * row + col, i, j) == (
                tiling.tm * row + i,
                tiling.tn * col + j,
            )
            &&& tiling.owned_cell_of(cols * row + col, i, j) == (
                tiling.acc_rows() * row + i,
                tiling.acc_features() * col + j,
            )
        }),
{
    let cols = tiling.keys as int / tiling.tn as int;
    lemma_split(cols * row + col, cols, row, col);
}

/// Law: the threads of a block share out its rows and features evenly: all rows of
/// threads take the owned rows between them, and all columns of threads the 128
/// features.
pub proof fn law_a_block_is_shared_out_evenly(tiling: Tiling)
    requires
        tiling.well_formed(),
    ensures
        tiling.threads() == (tiling.queries as int / tiling.tm as int) * (tiling.keys as int
            / tiling.tn as int),
        tiling.owned() == if tiling.owns_keys {
            tiling.keys as int
        } else {
            tiling.queries as int
        },
        tiling.streamed() == if tiling.owns_keys {
            tiling.queries as int
        } else {
            tiling.keys as int
        },
        tiling.acc_rows() * (tiling.queries as int / tiling.tm as int) == tiling.owned(),
        tiling.acc_features() * (tiling.keys as int / tiling.tn as int) == 128,
{
    tiling.lemma_counts();
}

/// Law: rows, heads and features are stored in that order. The next feature is the
/// next element, the next head's is 128 elements on, and the next row's is one
/// row of all heads on, across the end of a sequence too.
pub proof fn law_elements_are_stored_row_by_row(
    shape: PackedShape,
    sequence: int,
    row: int,
    head: int,
    feature: int,
)
    ensures
        shape.element(0, 0, 0, 0) == 0,
        shape.element(sequence, row, head, feature + 1) == shape.element(
            sequence,
            row,
            head,
            feature,
        ) + 1,
        shape.element(sequence, row, head + 1, feature) == shape.element(
            sequence,
            row,
            head,
            feature,
        ) + 128,
        shape.element(sequence, row + 1, head, feature) == shape.element(
            sequence,
            row,
            head,
            feature,
        ) + 128 * shape.heads,
        shape.element(sequence + 1, row, head, feature) == shape.element(
            sequence,
            row + shape.sequence_length,
            head,
            feature,
        ),
        shape.element(sequence, row, head, feature) == 128 * shape.statistic(sequence, row, head)
            + feature,
{
    let t = shape.sequence_length as int;
    let h = shape.heads as int;
    let packed = t * sequence + row;
    assert(t * (sequence + 1) == t * sequence + t) by (nonlinear_arith);
    assert(h * (packed + 1) == h * packed + h) by (nonlinear_arith);
    assert(t * 0 == 0 && h * 0 == 0) by (nonlinear_arith);
}

/// Law: the last query of a block is its last row, or the last of the sequence
/// where that comes first.
pub proof fn law_a_block_ends_with_its_last_row(tiling: Tiling, start: int, sequence_length: int)
    ensures
        ({
            let last = last_query(tiling, start, sequence_length);
            &&& last < start + tiling.queries
            &&& last < sequence_length
            &&& last == start + tiling.queries - 1 || last == sequence_length - 1
        }),
{
}

} // verus!
