//! Index maps of the per-row fp32 attention kernels.
//!
//! One block of `head_dim` lanes owns one `(row, head)`, lane `d` its feature
//! `d`. The fused backward instead gives a block one `(batch, head)` and a lane
//! its feature of every row of the sequence.

use crate::arith::{lemma_join_bounds, lemma_join_injective, lemma_split, lemma_split_bounds};
use crate::flash::schedule::attends;
use crate::launch::LaunchConfig;
use vstd::prelude::*;

verus! {

/// Widest head the kernels support.
pub const MAX_HEAD_DIM: usize = 256;

/// A head width the kernels support: a power of two up to 256.
pub open spec fn supported_width(head_dim: int) -> bool {
    head_dim == 1 || head_dim == 2 || head_dim == 4 || head_dim == 8 || head_dim == 16 || head_dim
        == 32 || head_dim == 64 || head_dim == 128 || head_dim == 256
}

/// Whether a head width is a power of two up to 256.
pub fn width_is_supported(head_dim: usize) -> (supported: bool)
    ensures
        supported == supported_width(head_dim as int),
        supported ==> 1 <= head_dim <= 256,
{
    head_dim == 1 || head_dim == 2 || head_dim == 4 || head_dim == 8 || head_dim == 16 || head_dim
        == 32 || head_dim == 64 || head_dim == 128 || head_dim == 256
}

/// Whether a block runs at all: a supported width, and one lane per feature.
pub fn block_runs(head_dim: usize, block_dim: usize) -> (runs: bool)
    ensures
        runs == (supported_width(head_dim as int) && block_dim == head_dim),
{
    width_is_supported(head_dim) && block_dim == head_dim
}

/// Lane whose partial sum lane `lane` adds to its own when the reduction folds
/// the upper half of `2 * stride` lanes onto the lower.
pub fn fold_partner(lane: usize, stride: usize) -> (partner: Option<usize>)
    requires
        2 * stride <= MAX_HEAD_DIM,
    ensures
        partner == if lane < stride {
            Some((lane + stride) as usize)
        } else {
            None
        },
{
    if lane < stride {
        Some(lane + stride)
    } else {
        None
    }
}

/// Terms that lane `lane` holds the sum of once `width` lanes are left.
pub open spec fn folded_terms(head_dim: int, width: int, lane: int) -> Set<int> {
    Set::new(|term: int| 0 <= term < head_dim && term % width == lane)
}

/// Law: the reduction gathers every term once. A lane starts with its own term;
/// each fold joins two disjoint sets of terms, those of a lane and of its
/// partner; and the one lane left holds all of them.
pub proof fn law_reduction_gathers_every_term(head_dim: int, width: int, lane: int)
    requires
        supported_width(head_dim),
        supported_width(width),
        width <= head_dim,
        0 <= lane < head_dim,
    ensures
        folded_terms(head_dim, head_dim, lane) =~= set![lane],
        1 < width && lane < width / 2 ==> folded_terms(head_dim, width / 2, lane) =~= folded_terms(
            head_dim,
            width,
            lane,
        ).union(folded_terms(head_dim, width, lane + width / 2)),
        1 < width && lane < width / 2 ==> folded_terms(head_dim, width, lane).disjoint(
            folded_terms(head_dim, width, lane + width / 2),
        ),
        folded_terms(head_dim, 1, 0) =~= Set::new(|term: int| 0 <= term < head_dim),
{
    assert forall|term: int| folded_terms(head_dim, head_dim, lane).contains(term) implies set![
        lane,
    ].contains(term) by {
        lemma_split(term, head_dim, 0, term);
    }
    lemma_split(lane, head_dim, 0, lane);
    if 1 < width && lane < width / 2 {
        let half = width / 2;
        assert(width == 2 * half);
        let whole = folded_terms(head_dim, half, lane);
        let low = folded_terms(head_dim, width, lane);
        let high = folded_terms(head_dim, width, lane + half);
        assert forall|term: int| whole.contains(term) == low.union(high).contains(term) by {
            if 0 <= term < head_dim {
                lemma_halved_remainder(term, half);
            }
        }
    }
}

proof fn lemma_halved_remainder(term: int, half: int)
    requires
        0 <= term,
        0 < half,
    ensures
        term % half == if term % (2 * half) < half {
            term % (2 * half)
        } else {
            term % (2 * half) - half
        },
{
    let width = 2 * half;
    vstd::arithmetic::div_mod::lemma_fundamental_div_mod(term, width);
    vstd::arithmetic::div_mod::lemma_mod_pos_bound(term, width);
    let q = term / width;
    let r = term % width;
    assert(width * q == half * (2 * q)) by (nonlinear_arith)
        requires
            width == 2 * half,
    ;
    if r < half {
        lemma_split(term, half, 2 * q, r);
    } else {
        assert(half * (2 * q + 1) == half * (2 * q) + half) by (nonlinear_arith);
        lemma_split(term, half, 2 * q + 1, r - half);
    }
}

/// Rows, heads and features of one launch.
#[derive(Clone, Copy, PartialEq, Eq, Structural, Debug)]
pub struct RowShape {
    pub batches: usize,
    pub sequence_length: usize,
    pub heads: usize,
    pub head_dim: usize,
}

/// What one `(row, head)` block works on.
#[derive(Clone, Copy, PartialEq, Eq, Structural, Debug)]
pub struct RowBlock {
    pub row: usize,
    pub head: usize,
    /// Position of the row within its sequence.
    pub position: usize,
    /// First row of the sequence.
    pub sequence_start: usize,
    /// First element of the row's head.
    pub base: usize,
}

impl RowShape {
    /// Rows of all sequences.
    pub open spec fn rows(self) -> int {
        self.sequence_length * self.batches
    }

    /// Blocks of a launch, one per `(row, head)`.
    pub open spec fn blocks(self) -> int {
        self.heads * self.rows()
    }

    /// Elements of one activation.
    pub open spec fn elements(self) -> int {
        self.head_dim * self.blocks()
    }

    /// A shape with something in it, whose indices fit the machine.
    pub open spec fn well_formed(self) -> bool {
        &&& 0 < self.sequence_length
        &&& 0 < self.heads
        &&& 0 < self.head_dim
        &&& self.rows() <= usize::MAX
        &&& self.blocks() <= usize::MAX
        &&& self.elements() <= usize::MAX
    }

    /// Element of a `(row, head, feature)`.
    pub open spec fn element(self, row: int, head: int, feature: int) -> int {
        self.head_dim * (self.heads * row + head) + feature
    }

    /// First element of a `(row, head)`.
    pub fn base(&self, row: usize, head: usize) -> (base: usize)
        requires
            self.well_formed(),
            row < self.rows(),
            head < self.heads,
        ensures
            base == self.element(row as int, head as int, 0),
            base == self.head_dim * (self.heads * row + head),
            base + self.head_dim <= self.elements(),
    {
        proof {
            lemma_join_bounds(row as int, head as int, self.heads as int, self.rows());
            let block = self.heads * row + head;
            assert(row * self.heads == self.heads * row) by (nonlinear_arith);
            assert(0 <= self.heads * row) by (nonlinear_arith);
            assert(block * self.head_dim == self.head_dim * block) by (nonlinear_arith);
            crate::arith::lemma_mul_monotone(block + 1, self.blocks(), self.head_dim as int);
            assert(self.head_dim * (block + 1) == self.head_dim * block + self.head_dim)
                by (nonlinear_arith);
        }
        (row * self.heads + head) * self.head_dim
    }

    /// What the block at grid position `block` of a per-row kernel works on.
    pub fn row_block(&self, block: usize) -> (decoded: RowBlock)
        requires
            self.well_formed(),
            block < self.blocks(),
        ensures
            decoded.row == block as int / self.heads as int,
            decoded.head == block as int % self.heads as int,
            decoded.position == decoded.row as int % self.sequence_length as int,
            decoded.sequence_start == self.sequence_length * (decoded.row as int
                / self.sequence_length as int),
            decoded.base == self.head_dim * block,
            decoded.row < self.rows(),
            decoded.head < self.heads,
            decoded.sequence_start + decoded.position == decoded.row,
            decoded.sequence_start + self.sequence_length <= self.rows(),
    {
        proof {
            lemma_split_bounds(block as int, self.heads as int, self.rows());
            let row = block as int / self.heads as int;
            lemma_split_bounds(row, self.sequence_length as int, self.batches as int);
            let sequence = row / self.sequence_length as int;
            crate::arith::lemma_mul_monotone(
                sequence + 1,
                self.batches as int,
                self.sequence_length as int,
            );
            assert(self.sequence_length * (sequence + 1) == self.sequence_length * sequence
                + self.sequence_length) by (nonlinear_arith);
        }
        let row: usize = block / self.heads;
        let head: usize = block % self.heads;
        let position: usize = row % self.sequence_length;
        RowBlock {
            row,
            head,
            position,
            sequence_start: row - position,
            base: self.base(row, head),
        }
    }

    /// Element of feature `lane` at `position` of a sequence, in the fused
    /// backward's block `block` of one `(batch, head)`.
    pub fn fused_element(&self, block: usize, position: usize, lane: usize) -> (element: usize)
        requires
            self.well_formed(),
            block < self.heads * self.batches,
            position < self.sequence_length,
            lane < self.head_dim,
        ensures
            element == self.element(
                self.sequence_length * (block as int / self.heads as int) + position,
                block as int % self.heads as int,
                lane as int,
            ),
            element < self.elements(),
            element == self.head_dim * (self.heads * (self.sequence_length * (block as int
                / self.heads as int) + position) + block as int % self.heads as int) + lane,
    {
        proof {
            lemma_split_bounds(block as int, self.heads as int, self.batches as int);
            let batch = block as int / self.heads as int;
            lemma_join_bounds(
                batch,
                position as int,
                self.sequence_length as int,
                self.batches as int,
            );
            assert(batch * self.sequence_length == self.sequence_length * batch)
                by (nonlinear_arith);
            assert(0 <= self.sequence_length * batch) by (nonlinear_arith)
                requires
                    0 <= batch,
            ;
        }
        let batch: usize = block / self.heads;
        let head: usize = block % self.heads;
        let row: usize = batch * self.sequence_length + position;
        self.base(row, head) + lane
    }

    /// Positions of the keys that the query at `position` meets in the fused
    /// backward, as a half-open range: from the first of the sequence up to its
    /// own.
    pub fn fused_keys(&self, position: usize) -> (range: (usize, usize))
        requires
            position < self.sequence_length,
        ensures
            range == (0usize, (position + 1) as usize),
            range.1 <= self.sequence_length,
            forall|key: int|
                range.0 <= key < range.1 <==> 0 <= key && #[trigger] attends(position as int, key),
    {
        (0, position + 1)
    }

    /// Law: the blocks and lanes of a per-row launch are one to one with the
    /// elements they write, so every element has exactly one writer.
    pub proof fn law_each_element_has_one_lane(self, element: int)
        requires
            self.well_formed(),
            0 <= element < self.elements(),
        ensures
            exists|block: int, lane: int|
                #![trigger self.lane_writes(block, lane, element)]
                self.lane_writes(block, lane, element),
            forall|b1: int, l1: int, b2: int, l2: int|
                #![trigger self.lane_writes(b1, l1, element), self.lane_writes(b2, l2, element)]
                self.lane_writes(b1, l1, element) && self.lane_writes(b2, l2, element) ==> b1 == b2
                    && l1 == l2,
    {
        lemma_split_bounds(element, self.head_dim as int, self.blocks());
        let block = element / self.head_dim as int;
        lemma_split_bounds(block, self.heads as int, self.rows());
        assert(self.lane_writes(block, element % self.head_dim as int, element));
        assert forall|b1: int, l1: int, b2: int, l2: int|
            #![trigger self.lane_writes(b1, l1, element), self.lane_writes(b2, l2, element)]
            self.lane_writes(b1, l1, element) && self.lane_writes(b2, l2, element) implies b1 == b2
            && l1 == l2 by {
            lemma_split_bounds(b1, self.heads as int, self.rows());
            lemma_split_bounds(b2, self.heads as int, self.rows());
            lemma_join_injective(self.head_dim as int, b1, l1, b2, l2);
        }
    }

    /// Lane `lane` of block `block` of a per-row launch writes `element`.
    pub open spec fn lane_writes(self, block: int, lane: int, element: int) -> bool {
        &&& 0 <= block < self.blocks()
        &&& 0 <= lane < self.head_dim
        &&& element == self.element(block / self.heads as int, block % self.heads as int, lane)
    }

    /// Lane `lane` of the fused backward's block `block` owns `element`, at
    /// `position` of its sequence.
    pub open spec fn fused_owns(self, block: int, position: int, lane: int, element: int) -> bool {
        &&& 0 <= block < self.heads * self.batches
        &&& 0 <= position < self.sequence_length
        &&& 0 <= lane < self.head_dim
        &&& element == self.element(
            self.sequence_length * (block / self.heads as int) + position,
            block % self.heads as int,
            lane,
        )
    }

    /// Law: in the fused backward each element belongs to exactly one block and
    /// lane, so its updates need no atomics.
    pub proof fn law_each_element_has_one_fused_owner(self, element: int)
        requires
            self.well_formed(),
            0 <= element < self.elements(),
        ensures
            exists|block: int, position: int, lane: int|
                #![trigger self.fused_owns(block, position, lane, element)]
                self.fused_owns(block, position, lane, element),
            forall|b1: int, p1: int, l1: int, b2: int, p2: int, l2: int|
                #![trigger self.fused_owns(b1, p1, l1, element), self.fused_owns(b2, p2, l2, element)]
                self.fused_owns(b1, p1, l1, element) && self.fused_owns(b2, p2, l2, element) ==> b1
                    == b2 && p1 == p2 && l1 == l2,
    {
        let h = self.heads as int;
        let t = self.sequence_length as int;
        lemma_split_bounds(element, self.head_dim as int, self.blocks());
        let row_head = element / self.head_dim as int;
        lemma_split_bounds(row_head, h, self.rows());
        let row = row_head / h;
        let head = row_head % h;
        lemma_split_bounds(row, t, self.batches as int);
        let batch = row / t;
        lemma_join_bounds(batch, head, h, self.batches as int);
        lemma_split(h * batch + head, h, batch, head);
        assert(self.fused_owns(
            h * batch + head,
            row % t,
            element % self.head_dim as int,
            element,
        ));
        assert forall|b1: int, p1: int, l1: int, b2: int, p2: int, l2: int|
            #![trigger self.fused_owns(b1, p1, l1, element), self.fused_owns(b2, p2, l2, element)]
            self.fused_owns(b1, p1, l1, element) && self.fused_owns(b2, p2, l2, element) implies b1
            == b2 && p1 == p2 && l1 == l2 by {
            lemma_split_bounds(b1, h, self.batches as int);
            lemma_split_bounds(b2, h, self.batches as int);
            let r1 = t * (b1 / h) + p1;
            let r2 = t * (b2 / h) + p2;
            lemma_join_injective(
                self.head_dim as int,
                h * r1 + b1 % h,
                l1,
                h * r2 + b2 % h,
                l2,
            );
            lemma_join_injective(h, r1, b1 % h, r2, b2 % h);
            lemma_join_injective(t, b1 / h, p1, b2 / h, p2);
        }
    }
}

impl RowBlock {
    /// Key rows that the block's query attends to: from the first of its
    /// sequence up to its own, as a half-open range.
    pub fn attended_keys(&self) -> (range: (usize, usize))
        requires
            self.sequence_start + self.position == self.row,
            self.row < usize::MAX,
        ensures
            range.0 == self.sequence_start,
            range.1 == self.row + 1,
            forall|key: int|
                range.0 <= key < range.1 <==> self.sequence_start <= key && #[trigger] attends(
                    self.row as int,
                    key,
                ),
    {
        (self.sequence_start, self.row + 1)
    }

    /// Query rows that attend to the block's key: from its own up to the last
    /// of its sequence, as a half-open range.
    pub fn attending_queries(&self, sequence_length: usize) -> (range: (usize, usize))
        requires
            self.sequence_start + sequence_length <= usize::MAX,
        ensures
            range.0 == self.row,
            range.1 == self.sequence_start + sequence_length,
            forall|query: int|
                range.0 <= query < range.1 <==> query < self.sequence_start + sequence_length
                    && #[trigger] attends(query, self.row as int),
    {
        (self.row, self.sequence_start + sequence_length)
    }
}

/// Launch of the softmax-dot kernel: one block of `head_dim` lanes per
/// `(row, head)`.
pub fn dot_config(rows: usize, heads: usize, head_dim: usize) -> (config: LaunchConfig)
    requires
        supported_width(head_dim as int),
        rows * heads <= u32::MAX,
    ensures
        config == (LaunchConfig {
            grid_dim: ((rows * heads) as u32, 1, 1),
            block_dim: (head_dim as u32, 1, 1),
            shared_mem_bytes: 0,
        }),
{
    LaunchConfig {
        grid_dim: ((rows * heads) as u32, 1, 1),
        block_dim: (head_dim as u32, 1, 1),
        shared_mem_bytes: 0,
    }
}

/// Law: a width is supported exactly where it is one of the powers of two from 1
/// to 256.
pub proof fn law_supported_widths_are_powers_of_two(head_dim: int)
    ensures
        supported_width(head_dim) <==> exists|e: nat|
            e <= 8 && head_dim == #[trigger] vstd::arithmetic::power2::pow2(e),
{
    vstd::arithmetic::power2::lemma2_to64();
    assert forall|e: nat| e <= 8 && head_dim == #[trigger] vstd::arithmetic::power2::pow2(
        e,
    ) implies supported_width(head_dim) by {
        assert(e == 0 || e == 1 || e == 2 || e == 3 || e == 4 || e == 5 || e == 6 || e == 7 || e
            == 8);
    }
    if supported_width(head_dim) {
        let e: nat = if head_dim == 1 {
            0
        } else if head_dim == 2 {
            1
        } else if head_dim == 4 {
            2
        } else if head_dim == 8 {
            3
        } else if head_dim == 16 {
            4
        } else if head_dim == 32 {
            5
        } else if head_dim == 64 {
            6
        } else if head_dim == 128 {
            7
        } else {
            8
        };
        assert(head_dim == vstd::arithmetic::power2::pow2(e));
    }
}

/// Law: a per-row launch writes its elements in order: lane `lane` of block
/// `block` writes element `head_dim * block + lane`, the feature of that number of
/// the row's head.
pub proof fn law_lanes_write_in_order(shape: RowShape, block: int, lane: int, element: int)
    requires
        shape.well_formed(),
        shape.lane_writes(block, lane, element),
    ensures
        element == shape.head_dim * block + lane,
        0 <= lane < shape.head_dim,
{
    vstd::arithmetic::div_mod::lemma_fundamental_div_mod(block, shape.heads as int);
}

/// Law: a fused block walks one head of one batch. Its lane's elements at two
/// neighbouring positions are one row of all heads apart, and the first block of
/// a batch starts at the batch's first row.
pub proof fn law_a_fused_block_walks_its_head(
    shape: RowShape,
    block: int,
    position: int,
    lane: int,
    element: int,
    next: int,
)
    requires
        shape.well_formed(),
        shape.fused_owns(block, position, lane, element),
        shape.fused_owns(block, position + 1, lane, next),
    ensures
        next == element + shape.head_dim * shape.heads,
        element == shape.head_dim * (shape.heads * (shape.sequence_length * (block
            / shape.heads as int) + position) + block % shape.heads as int) + lane,
{
    let d = shape.head_dim as int;
    let h = shape.heads as int;
    let row = shape.sequence_length * (block / h) + position;
    let head = block % h;
    assert(d * (h * (row + 1) + head) == d * (h * row + head) + d * h) by (nonlinear_arith);
}

} // verus!
