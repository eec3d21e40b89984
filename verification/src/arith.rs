//! Small facts on division and products that the index maps lean on.

use vstd::arithmetic::div_mod::{
    lemma_div_is_ordered, lemma_fundamental_div_mod, lemma_fundamental_div_mod_converse,
    lemma_mod_pos_bound,
};
use vstd::prelude::*;

verus! {

/// The least number of blocks of `size` that covers `count`.
pub open spec fn ceil_div(count: int, size: int) -> int {
    (count + size - 1) / size
}

/// A quotient and a remainder in range determine the number they split.
pub proof fn lemma_split(value: int, size: int, quotient: int, remainder: int)
    requires
        0 <= remainder < size,
        value == size * quotient + remainder,
    ensures
        value / size == quotient,
        value % size == remainder,
{
    assert(size * quotient == quotient * size) by (nonlinear_arith);
    lemma_fundamental_div_mod_converse(value, size, quotient, remainder);
}

/// An index below `size * count` splits into a quotient below `count` and a
/// remainder below `size`.
pub proof fn lemma_split_bounds(index: int, size: int, count: int)
    requires
        0 <= index < size * count,
        0 < size,
    ensures
        0 <= index / size < count,
        0 <= index % size < size,
        index == size * (index / size) + index % size,
{
    lemma_fundamental_div_mod(index, size);
    lemma_mod_pos_bound(index, size);
    let q = index / size;
    let r = index % size;
    assert(0 <= q) by (nonlinear_arith)
        requires
            index == size * q + r,
            0 <= index,
            0 < size,
            r < size,
    ;
    assert(q < count) by (nonlinear_arith)
        requires
            index == size * q + r,
            index < size * count,
            0 < size,
            0 <= r,
    ;
}

/// An index built from a quotient below `count` and a remainder below `size`
/// stays below `size * count`.
pub proof fn lemma_join_bounds(quotient: int, remainder: int, size: int, count: int)
    requires
        0 <= quotient < count,
        0 <= remainder < size,
    ensures
        0 <= size * quotient + remainder < size * count,
{
    assert(0 <= size * quotient && size * quotient + size <= size * count) by (nonlinear_arith)
        requires
            0 <= quotient,
            quotient + 1 <= count,
            0 < size,
    ;
}

/// Two quotient and remainder pairs that join to one index are the same pair.
pub proof fn lemma_join_injective(size: int, q1: int, r1: int, q2: int, r2: int)
    requires
        0 <= r1 < size,
        0 <= r2 < size,
        size * q1 + r1 == size * q2 + r2,
    ensures
        q1 == q2,
        r1 == r2,
{
    lemma_split(size * q1 + r1, size, q1, r1);
    lemma_split(size * q1 + r1, size, q2, r2);
}

/// A product of natural numbers does not shrink when a factor grows.
pub proof fn lemma_mul_monotone(a: int, b: int, c: int)
    requires
        0 <= a <= b,
        0 <= c,
    ensures
        a * c <= b * c,
        c * a <= c * b,
        0 <= a * c,
{
    assert(a * c <= b * c && c * a <= c * b && 0 <= a * c) by (nonlinear_arith)
        requires
            0 <= a <= b,
            0 <= c,
    ;
}

/// Quotients by one size keep the order of what they divide.
pub proof fn lemma_div_monotone(a: int, b: int, size: int)
    requires
        0 <= a <= b,
        0 < size,
    ensures
        a / size <= b / size,
{
    lemma_div_is_ordered(a, b, size);
}

/// `ceil_div` blocks cover the count, and one block fewer does not.
pub proof fn lemma_ceil_div(count: int, size: int)
    requires
        0 <= count,
        0 < size,
    ensures
        0 <= ceil_div(count, size),
        count <= size * ceil_div(count, size),
        0 < count ==> size * (ceil_div(count, size) - 1) < count,
        count % size == 0 ==> size * ceil_div(count, size) == count,
        ceil_div(count, size) <= count,
{
    let blocks = ceil_div(count, size);
    lemma_fundamental_div_mod(count + size - 1, size);
    lemma_mod_pos_bound(count + size - 1, size);
    lemma_fundamental_div_mod(count, size);
    let r = (count + size - 1) % size;
    assert(0 <= blocks) by (nonlinear_arith)
        requires
            count + size - 1 == size * blocks + r,
            0 <= count,
            0 < size,
            r < size,
    ;
    assert(size * (blocks - 1) == size * blocks - size) by (nonlinear_arith);
    if count % size == 0 {
        let q = count / size;
        assert(count == size * q);
        lemma_split(count + size - 1, size, q, size - 1);
    }
    assert(blocks <= count) by (nonlinear_arith)
        requires
            size * (blocks - 1) < count || count == 0,
            count == 0 ==> size * blocks <= size - 1,
            0 < size,
            0 <= count,
            0 <= blocks,
    ;
}

/// Blocks of `size` that cover `count` rows.
pub fn block_count(count: usize, size: usize) -> (blocks: usize)
    requires
        0 < size,
    ensures
        blocks == ceil_div(count as int, size as int),
        count <= size * blocks < count + size,
{
    proof {
        lemma_fundamental_div_mod(count as int, size as int);
        lemma_mod_pos_bound(count as int, size as int);
        let q = count as int / size as int;
        let r = count as int % size as int;
        assert(size * (q + 1) == size * q + size) by (nonlinear_arith);
        if r == 0 {
            lemma_split(count + size - 1, size as int, q, size - 1);
        } else {
            lemma_split(count + size - 1, size as int, q + 1, r - 1);
        }
        lemma_ceil_div(count as int, size as int);
        let blocks = ceil_div(count as int, size as int);
        assert(size * (blocks - 1) == size * blocks - size) by (nonlinear_arith);
        assert(count == 0 ==> size * blocks == 0) by {
            if count == 0 {
                lemma_split(count as int, size as int, 0, 0);
            }
        }
    }
    let whole: usize = count / size;
    if count % size == 0 {
        whole
    } else {
        whole + 1
    }
}

} // verus!
