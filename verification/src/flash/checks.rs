//! Host-side checks of what the attention probes report.

use crate::arith::{lemma_join_injective, lemma_split};
use crate::flash::schedule::{law_both_parallel_forms_visit_alike, query_visits};
use crate::tally::{law_picked_are_the_places_in_order, lemma_picked_len, picked, Tally};
use vstd::prelude::*;

verus! {

/// Words of one 128-wide bf16 row in global memory.
pub const PANEL_WORDS: usize = 64;

/// Words of one 64-wide subtile row in shared memory.
pub const SUBTILE_WORDS: usize = 32;

/// Words of a swizzled subtile: 64 rows.
pub const SUBTILE_TOTAL: usize = 2048;

/// Places that are shown of a wrong swizzle.
pub const SWIZZLE_SAMPLES: usize = 24;

/// One word of the swizzle check.
#[derive(Clone, Copy, PartialEq, Eq, Structural, Debug)]
pub struct SwizzledWord {
    pub row: usize,
    /// Sixteen-byte chunk of the row.
    pub chunk: usize,
    /// Word of the chunk.
    pub sub: usize,
    /// Word of the source panel.
    pub source: usize,
    /// Word of shared memory it lands in.
    pub landing: usize,
}

/// The chunk that a 128-byte swizzle moves chunk `chunk` of a row to, when the
/// subtile starts `phase` rows into its swizzle period.
pub open spec fn swizzled_chunk(row: int, chunk: int, phase: int) -> int {
    ((chunk as usize) ^ (((row + phase) as usize) & 7)) as int
}

/// Word of the source panel that place `place` of the check reads.
pub open spec fn swizzle_source(place: int) -> int {
    PANEL_WORDS * (place / 32) + 4 * ((place / 4) % 8) + place % 4
}

/// Word of shared memory that place `place` of the check lands in.
pub open spec fn swizzle_landing(place: int, phase: int) -> int {
    SUBTILE_WORDS * (place / 32) + 4 * swizzled_chunk(place / 32, (place / 4) % 8, phase) + place
        % 4
}

/// The dump does not hold, where a place should land, the word it came from.
pub open spec fn swizzle_is_wrong(dump: Seq<u32>, phase: int, place: int) -> bool {
    dump[swizzle_landing(place, phase)] != swizzle_source(place)
}

proof fn lemma_swizzled_chunk(row: int, chunk: int, phase: int)
    requires
        0 <= row < 64,
        0 <= chunk < 8,
        0 <= phase <= usize::MAX - 64,
    ensures
        0 <= swizzled_chunk(row, chunk, phase) < 8,
        swizzled_chunk(row, swizzled_chunk(row, chunk, phase), phase) == chunk,
{
    let c = chunk as usize;
    let k = (row + phase) as usize;
    assert((c ^ (k & 7)) < 8) by (bit_vector)
        requires
            c < 8,
    ;
    assert((c ^ (k & 7)) ^ (k & 7) == c) by (bit_vector);
}

/// Where place number `place` of a subtile comes from and lands.
pub fn swizzled_word(place: usize, phase: usize) -> (word: SwizzledWord)
    requires
        place < SUBTILE_TOTAL,
        phase <= usize::MAX - 64,
    ensures
        word.row == place as int / 32,
        word.chunk == (place as int / 4) % 8,
        word.sub == place as int % 4,
        word.source == swizzle_source(place as int),
        word.landing == swizzle_landing(place as int, phase as int),
        word.landing < SUBTILE_TOTAL,
        word.source == 64 * word.row + 4 * word.chunk + word.sub,
        word.landing == 32 * word.row + 4 * (word.chunk ^ (((word.row + phase) as usize) & 7usize))
            + word.sub,
        place == 32 * word.row + 4 * word.chunk + word.sub,
{
    let row: usize = place / 32;
    let chunk: usize = (place / 4) % 8;
    let sub: usize = place % 4;
    proof {
        lemma_swizzled_chunk(row as int, chunk as int, phase as int);
    }
    let moved: usize = chunk ^ ((row + phase) & 7);
    SwizzledWord {
        row,
        chunk,
        sub,
        source: row * PANEL_WORDS + chunk * 4 + sub,
        landing: row * SUBTILE_WORDS + moved * 4 + sub,
    }
}

/// Law: the swizzle moves the words of a subtile one to one. Distinct places
/// land in distinct words, and every word is landed in.
pub proof fn law_swizzle_is_a_permutation(first: int, second: int, word: int, phase: int)
    requires
        0 <= first < SUBTILE_TOTAL,
        0 <= second < SUBTILE_TOTAL,
        0 <= word < SUBTILE_TOTAL,
        0 <= phase <= usize::MAX - 64,
    ensures
        swizzle_landing(first, phase) == swizzle_landing(second, phase) ==> first == second,
        exists|place: int|
            0 <= place < SUBTILE_TOTAL && #[trigger] swizzle_landing(place, phase) == word,
{
    lemma_place_parts(first);
    lemma_place_parts(second);
    lemma_place_parts(word);
    lemma_swizzled_chunk(first / 32, (first / 4) % 8, phase);
    lemma_swizzled_chunk(second / 32, (second / 4) % 8, phase);
    if swizzle_landing(first, phase) == swizzle_landing(second, phase) {
        let c1 = swizzled_chunk(first / 32, (first / 4) % 8, phase);
        let c2 = swizzled_chunk(second / 32, (second / 4) % 8, phase);
        lemma_join_injective(32, first / 32, 4 * c1 + first % 4, second / 32, 4 * c2 + second % 4);
        lemma_join_injective(4, c1, first % 4, c2, second % 4);
    }
    lemma_swizzled_chunk(word / 32, (word / 4) % 8, phase);
    let chunk = swizzled_chunk(word / 32, (word / 4) % 8, phase);
    let place = 32 * (word / 32) + 4 * chunk + word % 4;
    lemma_split(place, 32, word / 32, 4 * chunk + word % 4);
    lemma_split(place, 4, 8 * (word / 32) + chunk, word % 4);
    lemma_split(place / 4, 8, word / 32, chunk);
    assert(swizzle_landing(place, phase) == word);
}

proof fn lemma_place_parts(place: int)
    requires
        0 <= place < SUBTILE_TOTAL,
    ensures
        place == 32 * (place / 32) + 4 * ((place / 4) % 8) + place % 4,
        0 <= place / 32 < 64,
{
}

/// Compares a dump of a subtile's shared memory with where the swizzle should
/// have put each word of a panel filled with its own word numbers.
pub fn check_swizzle(dump: &[u32], phase: usize) -> (tally: Tally)
    requires
        dump@.len() >= SUBTILE_TOTAL,
        phase <= usize::MAX - 64,
    ensures
        tally.well_formed(),
        tally.limit() == SWIZZLE_SAMPLES,
        tally.places() == picked(
            SUBTILE_TOTAL as int,
            |place: int| swizzle_is_wrong(dump@, phase as int, place),
        ),
        forall|place: usize| #[trigger]
            tally.places().contains(place) <==> place < 2048 && dump@[32 * (place as int / 32) + 4
                * (((place / 4) % 8) ^ (((place as int / 32 + phase) as usize) & 7usize)) + place
                as int % 4] != 64 * (place as int / 32) + 4 * ((place as int / 4) % 8) + place
                as int % 4,
{
    let ghost wrong = |place: int| swizzle_is_wrong(dump@, phase as int, place);
    let mut tally = Tally::new(SWIZZLE_SAMPLES);
    for place in 0..SUBTILE_TOTAL
        invariant
            dump@.len() >= SUBTILE_TOTAL,
            phase <= usize::MAX - 64,
            wrong == (|place: int| swizzle_is_wrong(dump@, phase as int, place)),
            tally.well_formed(),
            tally.limit() == SWIZZLE_SAMPLES,
            tally.places() == picked(place as int, wrong),
    {
        proof {
            lemma_picked_len(place as int, wrong);
        }
        let word = swizzled_word(place, phase);
        if dump[word.landing] != word.source as u32 {
            tally.note(place);
        }
        proof {
            assert(wrong(place as int) == swizzle_is_wrong(dump@, phase as int, place as int));
        }
    }
    proof {
        law_picked_are_the_places_in_order(SUBTILE_TOTAL as int, wrong);
    }
    tally
}

/// Source chunk that each of the eight chunks of a shared-memory row holds, as
/// the word numbers in the dump tell it.
pub fn observed_chunks(dump: &[u32], row: usize) -> (order: Vec<u32>)
    requires
        row < 64,
        dump@.len() >= SUBTILE_TOTAL,
    ensures
        order@.len() == 8,
        forall|c: int|
            0 <= c < 8 ==> #[trigger] order@[c] == dump@[SUBTILE_WORDS * row + 4 * c] % 64 / 4,
{
    let mut order: Vec<u32> = Vec::new();
    for c in 0..8usize
        invariant
            row < 64,
            dump@.len() >= SUBTILE_TOTAL,
            order@.len() == c,
            forall|d: int|
                0 <= d < c ==> #[trigger] order@[d] == dump@[SUBTILE_WORDS * row + 4 * d] % 64 / 4,
    {
        order.push(dump[row * SUBTILE_WORDS + c * 4] % 64 / 4);
    }
    order
}

/// Sum of the first `count` correction counts.
pub open spec fn correction_total(counts: Seq<u32>, count: int) -> int
    decreases count,
{
    if count <= 0 {
        0
    } else {
        correction_total(counts, count - 1) + counts[count - 1]
    }
}

/// Corrections made and tile visits that could have made one.
#[derive(Clone, Copy, PartialEq, Eq, Structural, Debug)]
pub struct CorrectionRate {
    pub total: u64,
    pub eligible: u64,
}

/// Adds up the correction counts of a launch and counts the visits that were
/// eligible: every tile visit but the first of each work item.
pub fn correction_rate(counts: &[u32], batches: usize, sequence_length: usize, heads: usize) -> (rate:
    CorrectionRate)
    requires
        counts@.len() <= u32::MAX,
        batches * heads <= usize::MAX,
        (sequence_length as int / 128) * (sequence_length as int / 128 + 1) <= usize::MAX,
        batches * heads * ((sequence_length as int / 128) * (sequence_length as int / 128))
            <= usize::MAX,
    ensures
        rate.total == correction_total(counts@, counts@.len() as int),
        rate.eligible == batches * heads * (query_visits(sequence_length as int / 128)
            - sequence_length as int / 128),
        rate.eligible == batches * heads * ((sequence_length as int / 128) * (sequence_length as int
            / 128)),
{
    let mut total: u64 = 0;
    for i in 0..counts.len()
        invariant
            counts@.len() <= u32::MAX,
            total == correction_total(counts@, i as int),
            total <= i * u32::MAX,
    {
        assert((i + 1) * u32::MAX == i * u32::MAX + u32::MAX) by (nonlinear_arith);
        assert((i + 1) * u32::MAX <= u32::MAX * u32::MAX) by (nonlinear_arith)
            requires
                i + 1 <= u32::MAX,
        ;
        total = total + counts[i] as u64;
    }
    let blocks: usize = sequence_length / 128;
    proof {
        law_both_parallel_forms_visit_alike(blocks as int);
        assert(blocks * (blocks + 1) == blocks * blocks + blocks) by (nonlinear_arith);
    }
    let visits: usize = blocks * (blocks + 1);
    CorrectionRate { total, eligible: (batches * heads * (visits - blocks)) as u64 }
}

/// Law: a chunk is moved by the place of its row in the swizzle's period of eight:
/// the chunk it comes from and the one it lands in differ by exactly those bits.
pub proof fn law_a_chunk_moves_by_its_rows_place(row: int, chunk: int, phase: int)
    requires
        0 <= row < 64,
        0 <= chunk < 8,
        0 <= phase <= usize::MAX - 64,
    ensures
        ((chunk as usize) ^ (swizzled_chunk(row, chunk, phase) as usize)) as int == (row + phase)
            % 8,
{
    lemma_swizzled_chunk(row, chunk, phase);
    let c = chunk as usize;
    let k = (row + phase) as usize;
    assert(c ^ (c ^ (k & 7)) == k % 8) by (bit_vector);
}

/// Law: a word keeps its row and its place in the chunk, in the panel it comes
/// from, 64 words to a row, and in the subtile, 32 words to a row.
pub proof fn law_a_word_keeps_its_row(row: int, chunk: int, sub: int, phase: int)
    requires
        0 <= row < 64,
        0 <= chunk < 8,
        0 <= sub < 4,
        0 <= phase <= usize::MAX - 64,
    ensures
        swizzle_source(32 * row + 4 * chunk + sub) == 64 * row + 4 * chunk + sub,
        swizzle_landing(32 * row + 4 * chunk + sub, phase) == 32 * row + 4 * swizzled_chunk(
            row,
            chunk,
            phase,
        ) + sub,
{
    let place = 32 * row + 4 * chunk + sub;
    lemma_split(place, 32, row, 4 * chunk + sub);
    lemma_split(place, 4, 8 * row + chunk, sub);
    lemma_split(place / 4, 8, row, chunk);
}

/// Law: corrections add up over the counts: those of two runs of counts are the
/// sum of each run's, and one count's is the count itself.
pub proof fn law_corrections_add_up(first: Seq<u32>, second: Seq<u32>, count: u32)
    ensures
        correction_total(first + second, (first + second).len() as int) == correction_total(
            first,
            first.len() as int,
        ) + correction_total(second, second.len() as int),
        correction_total(seq![count], 1) == count,
    decreases second.len(),
{
    reveal_with_fuel(correction_total, 2);
    if second.len() == 0 {
        lemma_total_of_a_prefix(first + second, first, first.len() as int);
    } else {
        let shorter = second.drop_last();
        law_corrections_add_up(first, shorter, count);
        let whole = first + second;
        lemma_total_of_a_prefix(whole, first + shorter, whole.len() - 1);
        lemma_total_of_a_prefix(second, shorter, second.len() - 1);
    }
}

proof fn lemma_total_of_a_prefix(whole: Seq<u32>, part: Seq<u32>, count: int)
    requires
        count <= whole.len(),
        count <= part.len(),
        forall|i: int| 0 <= i < count ==> whole[i] == part[i],
    ensures
        correction_total(whole, count) == correction_total(part, count),
    decreases count,
{
    if 0 < count {
        lemma_total_of_a_prefix(whole, part, count - 1);
    }
}

} // verus!
