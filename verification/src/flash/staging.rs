//! Staging of attention operands: fp32 `[batch * token, head * 128]`
//! activations become packed-bf16 head panels `[batch * head, token, 128]`.

use crate::arith::{lemma_join_bounds, lemma_join_injective, lemma_split, lemma_split_bounds};
use crate::bf16::{f32_to_bf16_rne, pack_pair, round_to_nearest_even, unpack_pair};
use crate::flash::host::{PanelLayout, FLASH_HD};
use crate::launch::LaunchConfig;
use vstd::prelude::*;

verus! {

/// Packed pairs of one row of a panel.
pub const PAIRS_PER_ROW: usize = 64;

/// Batches, tokens and heads of one operand.
#[derive(Clone, Copy, PartialEq, Eq, Structural, Debug)]
pub struct StageShape {
    pub batches: usize,
    pub sequence_length: usize,
    pub heads: usize,
}

/// What one packed word of the staged operand holds.
#[derive(Clone, Copy, PartialEq, Eq, Structural, Debug)]
pub struct StagedWord {
    pub plane: usize,
    pub token: usize,
    pub pair: usize,
    /// Activation that the low half is rounded from; the high half takes the
    /// one after it.
    pub base: usize,
}

impl StageShape {
    /// Head panels.
    pub open spec fn planes(self) -> int {
        self.heads * self.batches
    }

    /// Words of the staged operand.
    pub open spec fn words(self) -> int {
        PAIRS_PER_ROW * (self.sequence_length * self.planes())
    }

    /// Elements of the activations.
    pub open spec fn elements(self) -> int {
        FLASH_HD * (self.heads * (self.sequence_length * self.batches))
    }

    /// Every count fits the machine.
    pub open spec fn well_formed(self) -> bool {
        &&& self.planes() <= usize::MAX
        &&& self.elements() <= usize::MAX
    }

    /// Word of a pair of a token of a plane.
    pub open spec fn word(self, plane: int, token: int, pair: int) -> int {
        PAIRS_PER_ROW * (self.sequence_length * plane + token) + pair
    }

    /// Activation of a feature of a head of a token of a batch.
    pub open spec fn activation(self, batch: int, token: int, head: int, feature: int) -> int {
        FLASH_HD * (self.heads * (self.sequence_length * batch + token) + head) + feature
    }

    /// First of the two activations that a word is packed from.
    pub open spec fn source(self, word: int) -> int {
        let row = word / PAIRS_PER_ROW as int;
        let plane = row / self.sequence_length as int;
        self.activation(
            plane / self.heads as int,
            row % self.sequence_length as int,
            plane % self.heads as int,
            2 * (word % PAIRS_PER_ROW as int),
        )
    }

    /// A word holds two elements, and there are none of either in a shape that
    /// is empty in one extent.
    proof fn lemma_counts(self)
        ensures
            2 * self.words() == self.elements(),
            0 <= self.planes(),
            0 <= self.words(),
            self.planes() * self.sequence_length == self.sequence_length * self.planes(),
            0 < self.words() ==> 0 < self.sequence_length && 0 < self.heads,
    {
        let t = self.sequence_length as int;
        let h = self.heads as int;
        let b = self.batches as int;
        assert(t * (h * b) == h * (t * b)) by (nonlinear_arith);
        assert((h * b) * t == t * (h * b)) by (nonlinear_arith);
        assert(0 <= h * b) by (nonlinear_arith)
            requires
                0 <= h,
                0 <= b,
        ;
        assert(0 <= t * (h * b)) by (nonlinear_arith)
            requires
                0 <= t,
                0 <= h * b,
        ;
        assert(0 < t * (h * b) ==> 0 < t && 0 < h) by (nonlinear_arith)
            requires
                0 <= t,
                0 <= h,
        ;
    }

    proof fn lemma_word_bounds(self, word: int)
        requires
            self.well_formed(),
            0 <= word < self.words(),
        ensures
            0 < self.sequence_length,
            0 < self.heads,
            ({
                let row = word / 64;
                let plane = row / self.sequence_length as int;
                &&& 0 <= word % 64 < 64
                &&& 0 <= row % self.sequence_length as int
                &&& row % (self.sequence_length as int) < self.sequence_length
                &&& 0 <= plane < self.planes()
                &&& 0 <= plane / self.heads as int
                &&& plane / (self.heads as int) < self.batches
                &&& 0 <= plane % self.heads as int
                &&& plane % (self.heads as int) < self.heads
                &&& word == self.word(plane, row % self.sequence_length as int, word % 64)
                &&& 0 <= self.source(word)
                &&& self.source(word) + 1 < self.elements()
            }),
    {
        let t = self.sequence_length as int;
        let h = self.heads as int;
        self.lemma_counts();
        lemma_split_bounds(word, 64, t * self.planes());
        let row = word / 64;
        lemma_split_bounds(row, t, self.planes());
        let plane = row / t;
        lemma_split_bounds(plane, h, self.batches as int);
        let batch = plane / h;
        let head = plane % h;
        let token = row % t;
        lemma_join_bounds(batch, token, t, self.batches as int);
        lemma_join_bounds(t * batch + token, head, h, t * self.batches);
        lemma_join_bounds(
            h * (t * batch + token) + head,
            2 * (word % 64) + 1,
            128,
            h * (t * self.batches),
        );
    }

    /// What word number `word` holds: the map of the staging kernel's threads.
    pub fn staged_word(&self, word: usize) -> (staged: StagedWord)
        requires
            self.well_formed(),
            word < self.words(),
        ensures
            staged.pair == word % PAIRS_PER_ROW,
            staged.token == (word as int / PAIRS_PER_ROW as int) % self.sequence_length as int,
            staged.plane == (word as int / PAIRS_PER_ROW as int) / self.sequence_length as int,
            staged.base == self.source(word as int),
            staged.base == 128 * (self.heads * (self.sequence_length * (staged.plane as int
                / self.heads as int) + staged.token) + staged.plane as int % self.heads as int) + 2
                * staged.pair,
            staged.pair == word as int % 64,
            word == 64 * (self.sequence_length * staged.plane + staged.token) + staged.pair,
            word == self.word(staged.plane as int, staged.token as int, staged.pair as int),
            staged.base + 1 < self.elements(),
    {
        proof {
            self.lemma_word_bounds(word as int);
            let t = self.sequence_length as int;
            let h = self.heads as int;
            let row = word as int / 64;
            let plane = row / t;
            let batch = plane / h;
            let packed = t * batch + row % t;
            let row_head = h * packed + plane % h;
            assert(batch * t == t * batch) by (nonlinear_arith);
            assert(packed * h == h * packed) by (nonlinear_arith);
            assert(0 <= t * batch) by (nonlinear_arith)
                requires
                    0 <= t,
                    0 <= batch,
            ;
            assert(packed <= h * packed) by (nonlinear_arith)
                requires
                    1 <= h,
                    0 <= packed,
            ;
        }
        let row: usize = word / PAIRS_PER_ROW;
        let pair: usize = word % PAIRS_PER_ROW;
        let token: usize = row % self.sequence_length;
        let plane: usize = row / self.sequence_length;
        let batch: usize = plane / self.heads;
        let head: usize = plane % self.heads;
        let base: usize = ((batch * self.sequence_length + token) * self.heads + head) * FLASH_HD
            + pair * 2;
        StagedWord { plane, token, pair, base }
    }

    /// Law: the word index and `(plane, token, pair)` determine each other.
    pub proof fn law_words_are_a_bijection(self, plane: int, token: int, pair: int)
        requires
            self.well_formed(),
            0 <= plane < self.planes(),
            0 <= token < self.sequence_length,
            0 <= pair < PAIRS_PER_ROW,
        ensures
            ({
                let word = self.word(plane, token, pair);
                &&& 0 <= word < self.words()
                &&& word % PAIRS_PER_ROW as int == pair
                &&& (word / PAIRS_PER_ROW as int) % self.sequence_length as int == token
                &&& (word / PAIRS_PER_ROW as int) / self.sequence_length as int == plane
            }),
    {
        let t = self.sequence_length as int;
        lemma_join_bounds(plane, token, t, self.planes());
        lemma_join_bounds(t * plane + token, pair, 64, t * self.planes());
        lemma_split(self.word(plane, token, pair), 64, t * plane + token, pair);
        lemma_split(t * plane + token, t, plane, token);
    }

    /// Law: staging moves every activation exactly once. Distinct words take
    /// distinct pairs of activations, and every even activation is the source
    /// of a word.
    pub proof fn law_staging_is_a_permutation(self, first: int, second: int, even: int)
        requires
            self.well_formed(),
            0 <= first < self.words(),
            0 <= second < self.words(),
            0 <= even < self.elements(),
            even % 2 == 0,
        ensures
            self.source(first) == self.source(second) ==> first == second,
            exists|word: int| 0 <= word < self.words() && #[trigger] self.source(word) == even,
    {
        let t = self.sequence_length as int;
        let h = self.heads as int;
        self.lemma_word_bounds(first);
        self.lemma_word_bounds(second);
        if self.source(first) == self.source(second) {
            let (row1, row2) = (first / 64, second / 64);
            let (p1, p2) = (row1 / t, row2 / t);
            let (packed1, packed2) = (t * (p1 / h) + row1 % t, t * (p2 / h) + row2 % t);
            lemma_join_injective(
                128,
                h * packed1 + p1 % h,
                2 * (first % 64),
                h * packed2 + p2 % h,
                2 * (second % 64),
            );
            lemma_join_injective(h, packed1, p1 % h, packed2, p2 % h);
            lemma_join_injective(t, p1 / h, row1 % t, p2 / h, row2 % t);
            vstd::arithmetic::div_mod::lemma_fundamental_div_mod(p1, h);
            vstd::arithmetic::div_mod::lemma_fundamental_div_mod(p2, h);
        }
        self.lemma_counts();
        lemma_split_bounds(even, 128, h * (t * self.batches));
        let row_head = even / 128;
        lemma_split_bounds(row_head, h, t * self.batches);
        let packed = row_head / h;
        let head = row_head % h;
        lemma_split_bounds(packed, t, self.batches as int);
        let batch = packed / t;
        let token = packed % t;
        let pair = (even % 128) / 2;
        lemma_join_bounds(batch, head, h, self.batches as int);
        let plane = h * batch + head;
        self.law_words_are_a_bijection(plane, token, pair);
        lemma_split(plane, h, batch, head);
        assert(self.source(self.word(plane, token, pair)) == even);
    }

    /// Law: the staged panel and the row-major layout address one activation.
    /// The element of a head panel at `(plane, token, feature)` was rounded from
    /// the element that a row-major layout of the same activations addresses at
    /// plane `head`, row `batch * sequence_length + token`.
    pub proof fn law_row_major_layout_reads_the_staged_operand(
        self,
        layout: PanelLayout,
        batch: int,
        token: int,
        head: int,
        pair: int,
    )
        requires
            self.well_formed(),
            layout.column_stride == 1,
            layout.row_stride == self.heads * FLASH_HD,
            layout.plane_stride == FLASH_HD,
            0 <= batch < self.batches,
            0 <= token < self.sequence_length,
            0 <= head < self.heads,
            0 <= pair < PAIRS_PER_ROW,
        ensures
            self.source(self.word(self.heads * batch + head, token, pair)) == layout.element(
                head,
                self.sequence_length * batch + token,
                2 * pair,
            ),
    {
        let h = self.heads as int;
        let t = self.sequence_length as int;
        lemma_join_bounds(batch, head, h, self.batches as int);
        let plane = h * batch + head;
        self.law_words_are_a_bijection(plane, token, pair);
        lemma_split(plane, h, batch, head);
        let packed = t * batch + token;
        assert(128 * (h * packed + head) == h * 128 * packed + 128 * head) by (nonlinear_arith);
    }
}

/// Stages an operand on the host: `scaled` are the fp32 patterns of the
/// activations, with the softmax scale already multiplied in. Bit for bit what
/// the staging kernel writes. What `scaled` holds past the shape's elements is
/// not read.
pub fn stage_heads(scaled: &[u32], shape: &StageShape) -> (staged: Vec<u32>)
    requires
        shape.well_formed(),
        shape.elements() <= scaled@.len(),
    ensures
        staged@.len() == shape.words(),
        forall|word: int|
            0 <= word < shape.words() ==> #[trigger] staged@[word] == round_to_nearest_even(
                scaled@[shape.source(word)] as int,
            ) + 65536 * round_to_nearest_even(scaled@[shape.source(word) + 1] as int),
{
    proof {
        shape.lemma_counts();
    }
    let count: usize = shape.heads * shape.batches * shape.sequence_length * PAIRS_PER_ROW;
    let mut staged: Vec<u32> = Vec::new();
    for word in 0..count
        invariant
            shape.well_formed(),
            shape.elements() <= scaled@.len(),
            count == shape.words(),
            staged@.len() == word,
            forall|done: int|
                0 <= done < word ==> #[trigger] staged@[done] == round_to_nearest_even(
                    scaled@[shape.source(done)] as int,
                ) + 65536 * round_to_nearest_even(scaled@[shape.source(done) + 1] as int),
    {
        let place = shape.staged_word(word);
        let low: u16 = f32_to_bf16_rne(scaled[place.base]);
        let high: u16 = f32_to_bf16_rne(scaled[place.base + 1]);
        staged.push(pack_pair(low, high));
    }
    staged
}

/// The bf16 pattern of a feature of a token of a plane of a staged operand.
pub fn staged_value(
    staged: &[u32],
    sequence_length: usize,
    plane: usize,
    token: usize,
    feature: usize,
) -> (bits: u16)
    requires
        PAIRS_PER_ROW * (sequence_length * plane + token) + feature / 2 < staged@.len(),
    ensures
        ({
            let word = staged@[PAIRS_PER_ROW * (sequence_length * plane + token) + feature as int
                / 2];
            bits == if feature % 2 == 0 {
                word as int % 65536
            } else {
                word as int / 65536
            }
        }),
{
    proof {
        assert(plane * sequence_length == sequence_length * plane) by (nonlinear_arith);
        assert(0 <= sequence_length * plane) by (nonlinear_arith);
        assert(staged.len() == staged@.len());
    }
    let word: u32 = staged[(plane * sequence_length + token) * PAIRS_PER_ROW + feature / 2];
    let (low, high) = unpack_pair(word);
    if feature % 2 == 0 {
        low
    } else {
        high
    }
}

/// Launch of the staging kernel: one thread per packed pair.
pub fn stage_heads_config(rows: usize, heads: usize, head_dim: usize) -> (config: LaunchConfig)
    requires
        head_dim == FLASH_HD,
        rows * heads <= usize::MAX,
        rows * heads * head_dim <= usize::MAX,
        rows * heads * head_dim / 2 <= u32::MAX,
    ensures
        config == LaunchConfig::elementwise(rows * heads * head_dim / 2),
        256 * config.grid_dim.0 >= rows * heads * 64,
        256 * config.grid_dim.0 < rows * heads * 64 + 256,
        config.grid_dim.1 == 1 && config.grid_dim.2 == 1,
        config.block_dim == (256u32, 1u32, 1u32),
        config.shared_mem_bytes == 0,
{
    let words: usize = rows * heads * head_dim / 2;
    LaunchConfig::for_num_elems(words as u32)
}

/// Law: staging moves a head's columns into the head's panel. Pair `pair` of a
/// token of plane `heads * batch + head` of the staged operand holds features
/// `2 * pair` and `2 * pair + 1` of that token and head of the activations.
pub proof fn law_a_pair_keeps_its_token_and_head(
    shape: StageShape,
    batch: int,
    token: int,
    head: int,
    pair: int,
)
    requires
        shape.well_formed(),
        0 <= batch < shape.batches,
        0 <= token < shape.sequence_length,
        0 <= head < shape.heads,
        0 <= pair < 64,
    ensures
        shape.source(64 * (shape.sequence_length * (shape.heads * batch + head) + token) + pair)
            == 128 * (shape.heads * (shape.sequence_length * batch + token) + head) + 2 * pair,
        shape.word(shape.heads * batch + head, token, pair) == 64 * (shape.sequence_length * (
        shape.heads * batch + head) + token) + pair,
{
    lemma_join_bounds(batch, head, shape.heads as int, shape.batches as int);
    let plane = shape.heads * batch + head;
    shape.law_words_are_a_bijection(plane, token, pair);
    lemma_split(plane, shape.heads as int, batch, head);
}

/// Law: the staged operand has a word for every two activations.
pub proof fn law_a_word_is_two_activations(shape: StageShape)
    ensures
        2 * shape.words() == shape.elements(),
        shape.elements() == 128 * (shape.heads * (shape.sequence_length * shape.batches)),
{
    shape.lemma_counts();
}

} // verus!
