//! Operands whose whole product is a 7 by 21 table, for products too large to
//! recompute.

use crate::bf16::{bf16_from_integer, bf16_of_integer};
use crate::float_order::{f32_same_value, same_value};
use crate::gemm::host::Operand;
use crate::tally::{law_picked_are_the_places_in_order, lemma_picked_len, picked, Tally};
use vstd::arithmetic::div_mod::lemma_mod_multiples_vanish;
use vstd::prelude::*;

verus! {

/// Rows of the table: the period of `A`.
pub const ROW_PERIOD: usize = 7;

/// Columns of the table: the period of `B`.
pub const COLUMN_PERIOD: usize = 21;

/// Depths up to which every sum of products is exact in fp32.
pub const EXACT_DEPTHS: usize = 559240;

/// Wrong elements that are shown.
pub const PERIODIC_SAMPLES: usize = 8;

/// `A[row, depth]`.
pub open spec fn periodic_a(row: int, depth: int) -> int {
    (5 * row + 3 * depth) % 7 - 3
}

/// `B[column, depth]`.
pub open spec fn periodic_b(column: int, depth: int) -> int {
    (4 * column + 5 * depth) % 21 - 10
}

/// The element of either operand.
pub open spec fn periodic_element(operand: Operand, line: int, depth: int) -> int {
    match operand {
        Operand::A => periodic_a(line, depth),
        Operand::B => periodic_b(line, depth),
    }
}

/// The product of a row of `A` and a column of `B` over the first `k` depths.
pub open spec fn periodic_product(row: int, column: int, k: int) -> int
    decreases k,
{
    if k <= 0 {
        0
    } else {
        periodic_product(row, column, k - 1) + periodic_a(row, k - 1) * periodic_b(column, k - 1)
    }
}

/// `A[row, depth]`: periodic in `row`, and exact in bf16.
pub fn a_value(row: usize, depth: usize) -> (value: i8)
    requires
        5 * row + 3 * depth <= usize::MAX,
    ensures
        value == periodic_a(row as int, depth as int),
        value + 3 == (5 * row + 3 * depth) % 7,
        -3 <= value <= 3,
{
    ((row * 5 + depth * 3) % 7) as i8 - 3
}

/// `B[column, depth]`: periodic in `column`, and exact in bf16.
pub fn b_value(column: usize, depth: usize) -> (value: i8)
    requires
        4 * column + 5 * depth <= usize::MAX,
    ensures
        value == periodic_b(column as int, depth as int),
        value + 10 == (4 * column + 5 * depth) % 21,
        -10 <= value <= 10,
{
    ((column * 4 + depth * 5) % 21) as i8 - 10
}

/// A `[lines, depth]` operand with the depth contiguous, as bf16 patterns.
pub fn periodic_operand(operand: Operand, lines: usize, depth: usize) -> (staged: Vec<u16>)
    requires
        lines * depth <= usize::MAX,
        5 * lines + 5 * depth <= usize::MAX,
    ensures
        staged@.len() == lines * depth,
        forall|line: int, step: int|
            0 <= line < lines && 0 <= step < depth ==> #[trigger] staged@[depth * line + step]
                == bf16_of_integer(periodic_element(operand, line, step)),
        forall|line: int, step: int|
            0 <= line < lines && 0 <= step < depth ==> #[trigger] staged@[depth * line + step]
                == bf16_of_integer(
                if operand == Operand::A {
                    (5 * line + 3 * step) % 7 - 3
                } else {
                    (4 * line + 5 * step) % 21 - 10
                },
            ),
{
    let mut staged: Vec<u16> = Vec::new();
    for line in 0..lines
        invariant
            lines * depth <= usize::MAX,
            5 * lines + 5 * depth <= usize::MAX,
            staged@.len() == depth * line,
            forall|i: int, step: int|
                0 <= i < line && 0 <= step < depth ==> #[trigger] staged@[depth * i + step]
                    == bf16_of_integer(periodic_element(operand, i, step)),
    {
        let ghost before = staged@;
        for step in 0..depth
            invariant
                line < lines,
                5 * lines + 5 * depth <= usize::MAX,
                before.len() == depth * line,
                staged@.len() == before.len() + step,
                forall|i: int| 0 <= i < before.len() ==> #[trigger] staged@[i] == before[i],
                forall|i: int|
                    0 <= i < step ==> staged@[#[trigger] (depth * line + i)] == bf16_of_integer(
                        periodic_element(operand, line as int, i),
                    ),
        {
            let value: i8 = match operand {
                Operand::A => a_value(line, step),
                Operand::B => b_value(line, step),
            };
            staged.push(bf16_from_integer(value));
        }
        proof {
            assert(depth * (line + 1) == depth * line + depth) by (nonlinear_arith);
            assert forall|i: int, step: int|
                0 <= i < line + 1 && 0 <= step < depth implies #[trigger] staged@[depth * i + step]
                == bf16_of_integer(periodic_element(operand, i, step)) by {
                if i < line {
                    assert(0 <= depth * i + step < depth * line) by (nonlinear_arith)
                        requires
                            0 <= i < line,
                            0 <= step < depth,
                    ;
                    assert(before[depth * i + step] == staged@[depth * i + step]);
                }
            }
        }
    }
    proof {
        assert(depth * lines == lines * depth) by (nonlinear_arith);
    }
    staged
}

/// The product at a row and column of the table, over `k` depths.
fn table_cell(row: usize, column: usize, k: usize) -> (sum: i64)
    requires
        row < 7,
        column < 21,
        k <= EXACT_DEPTHS,
    ensures
        sum == periodic_product(row as int, column as int, k as int),
        -30 * k <= sum <= 30 * k,
{
    let mut sum: i64 = 0;
    for depth in 0..k
        invariant
            row < 7,
            column < 21,
            k <= EXACT_DEPTHS,
            sum == periodic_product(row as int, column as int, depth as int),
            -30 * depth <= sum <= 30 * depth,
    {
        let a: i8 = a_value(row, depth);
        let b: i8 = b_value(column, depth);
        proof {
            assert(-30 <= a * b <= 30) by (nonlinear_arith)
                requires
                    -3 <= a <= 3,
                    -10 <= b <= 10,
            ;
        }
        sum = sum + (a as i64) * (b as i64);
    }
    sum
}

/// The table: the products of every row and column of it, over `k` depths.
pub fn periodic_table(k: usize) -> (table: Vec<i64>)
    requires
        k <= EXACT_DEPTHS,
    ensures
        table@.len() == 147,
        forall|row: int, column: int|
            0 <= row < 7 && 0 <= column < 21 ==> #[trigger] table@[21 * row + column]
                == periodic_product(row, column, k as int),
{
    let mut table: Vec<i64> = Vec::new();
    for cell in 0..147usize
        invariant
            k <= EXACT_DEPTHS,
            table@.len() == cell,
            forall|i: int|
                0 <= i < cell ==> #[trigger] table@[i] == periodic_product(i / 21, i % 21, k as int),
    {
        let sum: i64 = table_cell(cell / 21, cell % 21, k);
        table.push(sum);
    }
    table
}

/// The elements of an `[m, n]` product that are not what the table says, which
/// `reference` gives as the fp32 pattern of each entry.
pub open spec fn departs(observed: Seq<u32>, reference: Seq<u32>, n: int) -> spec_fn(int) -> bool {
    |i: int| !same_value(observed[i], reference[21 * ((i / n) % 7) + (i % n) % 21])
}

/// Compares a product with the table by value.
pub fn compare_periodic(observed: &[u32], reference: &[u32], m: usize, n: usize) -> (tally: Tally)
    requires
        observed@.len() >= m * n,
        reference@.len() == 147,
    ensures
        tally.well_formed(),
        tally.limit() == PERIODIC_SAMPLES,
        tally.places() == picked(m * n, departs(observed@, reference@, n as int)),
        forall|place: usize| #[trigger]
            tally.places().contains(place) <==> place < m * n && !same_value(
                observed@[place as int],
                reference@[21 * ((place as int / n as int) % 7) + (place as int % n as int) % 21],
            ),
{
    let ghost wrong = departs(observed@, reference@, n as int);
    let mut tally = Tally::new(PERIODIC_SAMPLES);
    assert(observed.len() == observed@.len());
    let total: usize = m * n;
    for i in 0..total
        invariant
            observed@.len() >= m * n,
            total == m * n,
            reference@.len() == 147,
            wrong == departs(observed@, reference@, n as int),
            tally.well_formed(),
            tally.limit() == PERIODIC_SAMPLES,
            tally.places() == picked(i as int, wrong),
    {
        proof {
            lemma_picked_len(i as int, wrong);
            assert(n > 0) by (nonlinear_arith)
                requires
                    0 < m * n,
                    0 <= n,
            ;
        }
        let row: usize = i / n;
        let column: usize = i % n;
        let want: u32 = reference[(row % ROW_PERIOD) * COLUMN_PERIOD + column % COLUMN_PERIOD];
        if !f32_same_value(observed[i], want) {
            tally.note(i);
        }
    }
    proof {
        law_picked_are_the_places_in_order(m * n, wrong);
    }
    tally
}

/// Law: an element of the product is the table's entry at its row and column
/// modulo the periods.
pub proof fn law_product_is_periodic(row: int, column: int, k: int)
    requires
        0 <= row,
        0 <= column,
    ensures
        periodic_product(row, column, k) == periodic_product(row % 7, column % 21, k),
    decreases k,
{
    if k > 0 {
        law_product_is_periodic(row, column, k - 1);
        let r = row % 7;
        let c = column % 21;
        assert(5 * row + 3 * (k - 1) == 7 * (5 * (row / 7)) + (5 * r + 3 * (k - 1)));
        assert(4 * column + 5 * (k - 1) == 21 * (4 * (column / 21)) + (4 * c + 5 * (k - 1)));
        lemma_mod_multiples_vanish(5 * (row / 7), 5 * r + 3 * (k - 1), 7);
        lemma_mod_multiples_vanish(4 * (column / 21), 4 * c + 5 * (k - 1), 21);
    }
}

/// Law: a product of up to [`EXACT_DEPTHS`] depths is an integer that fp32 holds exactly,
/// and so is every partial sum on the way to it.
pub proof fn law_product_is_exact(row: int, column: int, k: int)
    requires
        0 <= k <= EXACT_DEPTHS,
    ensures
        -16777216 < periodic_product(row, column, k) < 16777216,
{
    lemma_product_bound(row, column, k);
}

proof fn lemma_product_bound(row: int, column: int, k: int)
    requires
        0 <= k,
    ensures
        -30 * k <= periodic_product(row, column, k) <= 30 * k,
    decreases k,
{
    if k > 0 {
        lemma_product_bound(row, column, k - 1);
        let a = periodic_a(row, k - 1);
        let b = periodic_b(column, k - 1);
        assert(-30 <= a * b <= 30) by (nonlinear_arith)
            requires
                -3 <= a <= 3,
                -10 <= b <= 10,
        ;
    }
}

/// Law: a product is the sum of its factors' products: none over no depth, and one
/// more for each further depth, of residues modulo 7 less 3 and modulo 21 less 10.
pub proof fn law_product_sums_its_factors(row: int, column: int, k: int)
    requires
        0 <= k,
    ensures
        periodic_product(row, column, 0) == 0,
        periodic_product(row, column, k + 1) == periodic_product(row, column, k) + ((5 * row + 3
            * k) % 7 - 3) * ((4 * column + 5 * k) % 21 - 10),
{
}

} // verus!
