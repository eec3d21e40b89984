//! Brain floating point, as bit patterns.

use vstd::arithmetic::power2::pow2;
use vstd::prelude::*;

verus! {

/// The bf16 pattern nearest to an fp32 pattern, ties to the even one.
///
/// An fp32 pattern is a bf16 pattern followed by 16 more bits, and patterns of
/// one sign are ordered as their values are. So rounding a value is rounding
/// the pattern as an integer to a multiple of 65536; the sum wraps at the top
/// of the word.
pub open spec fn round_to_nearest_even(bits: int) -> int {
    let high = bits / 65536;
    let low = bits % 65536;
    if low > 32768 || (low == 32768 && high % 2 == 1) {
        (high + 1) % 65536
    } else {
        high
    }
}

/// Rounds an fp32 pattern to bf16, to nearest with ties to even.
pub fn f32_to_bf16_rne(bits: u32) -> (rounded: u16)
    ensures
        rounded == round_to_nearest_even(bits as int),
{
    proof {
        assert((bits >> 16) & 1 == (bits / 65536) % 2) by (bit_vector);
    }
    let round: u32 = 0x7fff + ((bits >> 16) & 1);
    let sum: u32 = bits.wrapping_add(round);
    let top: u32 = sum >> 16;
    proof {
        assert(sum >> 16 == sum / 65536) by (bit_vector);
        let high = bits as int / 65536;
        let low = bits as int % 65536;
        assert(bits == 65536 * high + low);
        assert(round == 32767 + high % 2);
        if bits + round >= 0x1_0000_0000 {
            assert(sum == bits + round - 0x1_0000_0000);
        } else {
            assert(sum == bits + round);
        }
    }
    top as u16
}

/// The fp32 pattern of a bf16 pattern: the same value, exactly.
pub fn bf16_to_f32(bits: u16) -> (widened: u32)
    ensures
        widened == 65536 * bits,
{
    proof {
        let wide = bits as u32;
        assert(wide << 16 == wide * 65536) by (bit_vector)
            requires
                wide < 65536,
        ;
    }
    (bits as u32) << 16
}

/// Law: the rounded pattern is a nearest one. No bf16 pattern is closer to the
/// fp32 pattern, and where two are equally close the even one is taken. Only a
/// pattern that would round past the top of the word is left out.
pub proof fn law_rounding_is_nearest(bits: int, other: int)
    requires
        0 <= bits < 65536 * 65535 + 32768,
        0 <= other < 65536,
    ensures
        ({
            let rounded = round_to_nearest_even(bits);
            let error = if bits < 65536 * rounded {
                65536 * rounded - bits
            } else {
                bits - 65536 * rounded
            };
            let distance = if bits < 65536 * other {
                65536 * other - bits
            } else {
                bits - 65536 * other
            };
            &&& error <= distance
            &&& error == distance && other != rounded ==> rounded % 2 == 0
        }),
{
}

/// Law: widening then rounding gives a bf16 pattern back.
pub proof fn law_widening_is_undone_by_rounding(bits: u16)
    ensures
        round_to_nearest_even(65536 * bits) == bits,
{
}

/// One word of two bf16 patterns, the first in the low half.
pub fn pack_pair(low: u16, high: u16) -> (word: u32)
    ensures
        word == low + 65536 * high,
{
    proof {
        let a = low as u32;
        let b = high as u32;
        assert(a | (b << 16) == a + 65536 * b) by (bit_vector)
            requires
                a < 65536,
                b < 65536,
        ;
    }
    (low as u32) | ((high as u32) << 16)
}

/// The two bf16 patterns of a word.
pub fn unpack_pair(word: u32) -> (pair: (u16, u16))
    ensures
        pair.0 == word % 65536,
        pair.1 == word / 65536,
{
    proof {
        assert(word & 0xffff == word % 65536) by (bit_vector);
        assert(word >> 16 == word / 65536) by (bit_vector);
    }
    ((word & 0xffff) as u16, (word >> 16) as u16)
}

/// Law: packing and unpacking undo each other.
pub proof fn law_packing_is_undone_by_unpacking(low: u16, high: u16, word: u32)
    ensures
        (low + 65536 * high) % 65536 == low,
        (low + 65536 * high) / 65536 == high,
        word % 65536 + 65536 * (word / 65536) == word,
{
}

/// Packs bf16 patterns two to a word; an odd one out is dropped.
pub fn pack_bf16(values: &[u16]) -> (words: Vec<u32>)
    ensures
        words@.len() == values@.len() / 2,
        forall|i: int|
            0 <= i < words@.len() ==> #[trigger] words@[i] == values@[2 * i] + 65536 * values@[2 * i
                + 1],
{
    let mut words: Vec<u32> = Vec::new();
    let pairs: usize = values.len() / 2;
    for i in 0..pairs
        invariant
            pairs == values@.len() / 2,
            values@.len() <= usize::MAX,
            words@.len() == i,
            forall|j: int|
                0 <= j < i ==> #[trigger] words@[j] == values@[2 * j] + 65536 * values@[2 * j + 1],
    {
        words.push(pack_pair(values[2 * i], values[2 * i + 1]));
    }
    words
}

/// Rounds fp32 patterns to bf16 and packs them two to a word, each where it
/// lies; an odd one out is dropped.
pub fn pack_rows(input: &[u32]) -> (words: Vec<u32>)
    ensures
        words@.len() == input@.len() / 2,
        forall|i: int|
            0 <= i < words@.len() ==> #[trigger] words@[i] == round_to_nearest_even(
                input@[2 * i] as int,
            ) + 65536 * round_to_nearest_even(input@[2 * i + 1] as int),
{
    let mut words: Vec<u32> = Vec::new();
    let pairs: usize = input.len() / 2;
    for i in 0..pairs
        invariant
            pairs == input@.len() / 2,
            input@.len() <= usize::MAX,
            words@.len() == i,
            forall|j: int|
                0 <= j < i ==> #[trigger] words@[j] == round_to_nearest_even(input@[2 * j] as int)
                    + 65536 * round_to_nearest_even(input@[2 * j + 1] as int),
    {
        words.push(pack_pair(f32_to_bf16_rne(input[2 * i]), f32_to_bf16_rne(input[2 * i + 1])));
    }
    words
}

/// Unpacks words into bf16 patterns, low half first.
pub fn unpack_bf16(words: &[u32]) -> (values: Vec<u16>)
    requires
        2 * words@.len() <= usize::MAX,
    ensures
        values@.len() == 2 * words@.len(),
        forall|i: int|
            0 <= i < words@.len() ==> #[trigger] words@[i] == values@[2 * i] + 65536 * values@[2 * i
                + 1],
{
    let mut values: Vec<u16> = Vec::new();
    for i in 0..words.len()
        invariant
            values@.len() == 2 * i,
            forall|j: int|
                0 <= j < i ==> #[trigger] words@[j] == values@[2 * j] + 65536 * values@[2 * j + 1],
    {
        let (low, high) = unpack_pair(words[i]);
        let ghost before = values@;
        values.push(low);
        values.push(high);
        proof {
            assert forall|j: int| 0 <= j < i + 1 implies #[trigger] words@[j] == values@[2 * j]
                + 65536 * values@[2 * j + 1] by {
                if j < i {
                    assert(values@[2 * j] == before[2 * j]);
                    assert(values@[2 * j + 1] == before[2 * j + 1]);
                }
            }
        }
    }
    values
}

/// Position of the leading bit of a positive number.
pub open spec fn leading_bit(n: int) -> int
    decreases n,
{
    if n < 2 {
        0
    } else {
        1 + leading_bit(n / 2)
    }
}

/// The bf16 pattern of a natural number below 256, all of which bf16 holds
/// exactly: the exponent is the leading bit, biased by 127, and the seven bits
/// below it are the fraction.
pub open spec fn bf16_of_natural(n: int) -> int {
    if n == 0 {
        0
    } else {
        128 * (127 + leading_bit(n)) + (n * pow2((7 - leading_bit(n)) as nat) - 128)
    }
}

/// The bf16 pattern of an integer of magnitude below 256: the sign is the top
/// bit.
pub open spec fn bf16_of_integer(n: int) -> int {
    if n < 0 {
        32768 + bf16_of_natural(-n)
    } else {
        bf16_of_natural(n)
    }
}

/// The bf16 pattern of `n / 4` for `n` from -4 to 4: a quarter of an integer
/// has its pattern with an exponent two lower, and zero is zero.
pub open spec fn bf16_of_quarters(n: int) -> int {
    if n == 0 {
        0
    } else {
        bf16_of_integer(n) - 2 * 128
    }
}

/// `half::bf16::from` on a `u8`. The claim is that the conversion is exact, and
/// what its pattern is.
#[verifier::external_body]
fn half_from_u8(value: u8) -> (bits: u16)
    ensures
        bits == bf16_of_natural(value as int),
{
    half::bf16::from(value).to_bits()
}

/// `half::bf16::from` on an `i8`. The claim is that the conversion is exact, and
/// what its pattern is.
#[verifier::external_body]
fn half_from_i8(value: i8) -> (bits: u16)
    ensures
        bits == bf16_of_integer(value as int),
{
    half::bf16::from(value).to_bits()
}

/// The bf16 pattern of a natural number below 256.
pub fn bf16_from_natural(value: u8) -> (bits: u16)
    ensures
        bits == bf16_of_natural(value as int),
{
    half_from_u8(value)
}

/// The bf16 pattern of a small integer.
pub fn bf16_from_integer(value: i8) -> (bits: u16)
    ensures
        bits == bf16_of_integer(value as int),
{
    half_from_i8(value)
}

proof fn lemma_small_integers_have_exponents(n: int)
    requires
        -4 <= n <= 4,
        n != 0,
    ensures
        256 <= bf16_of_integer(n),
{
    reveal_with_fuel(leading_bit, 4);
    vstd::arithmetic::power2::lemma2_to64();
}

/// The bf16 pattern of `value / 4`: the integer's, with an exponent two lower.
pub fn bf16_from_quarters(value: i8) -> (bits: u16)
    requires
        -4 <= value <= 4,
    ensures
        bits == bf16_of_quarters(value as int),
{
    let whole: u16 = half_from_i8(value);
    if value == 0 {
        0
    } else {
        proof {
            lemma_small_integers_have_exponents(value as int);
        }
        whole - 256
    }
}

/// Law: a pattern nearest to the end of the word wraps to zero.
pub proof fn law_rounding_past_the_top_wraps(bits: int)
    requires
        65536 * 65535 + 32768 <= bits < 0x1_0000_0000,
    ensures
        round_to_nearest_even(bits) == 0,
{
}

proof fn lemma_leading_bit(n: int)
    requires
        0 < n,
    ensures
        0 <= leading_bit(n),
        pow2(leading_bit(n) as nat) <= n < 2 * pow2(leading_bit(n) as nat),
    decreases n,
{
    vstd::arithmetic::power2::lemma2_to64();
    if 2 <= n {
        lemma_leading_bit(n / 2);
        vstd::arithmetic::power2::lemma_pow2_unfold(leading_bit(n) as nat);
        assert((leading_bit(n) - 1) as nat == leading_bit(n / 2) as nat);
    }
}

/// Law: the pattern of a natural number holds that number: read as a float, with
/// an exponent biased by 127 and seven bits of fraction under a leading one, it
/// is `n`.
pub proof fn law_a_pattern_holds_its_number(n: int)
    requires
        0 < n < 256,
    ensures
        ({
            let bits = bf16_of_natural(n);
            let exponent = bits / 128 - 127;
            &&& 0 <= exponent < 8
            &&& (128 + bits % 128) * pow2(exponent as nat) == 128 * n
        }),
        bf16_of_natural(0) == 0,
{
    lemma_leading_bit(n);
    vstd::arithmetic::power2::lemma2_to64();
    let e = leading_bit(n);
    if 8 <= e {
        if e != 8 {
            vstd::arithmetic::power2::lemma_pow2_strictly_increases(8, e as nat);
        }
    }
    assert(e == 0 || e == 1 || e == 2 || e == 3 || e == 4 || e == 5 || e == 6 || e == 7);
    lemma_scaled_number(n, e, pow2(e as nat) as int, pow2((7 - e) as nat) as int);
}

/// A number between a power of two and the next, scaled up to eight bits and
/// back.
proof fn lemma_scaled_number(n: int, e: int, low: int, high: int)
    requires
        0 <= e < 8,
        low <= n < 2 * low,
        low * high == 128,
        0 < low,
    ensures
        ({
            let bits = 128 * (127 + e) + (n * high - 128);
            &&& bits / 128 == 127 + e
            &&& (128 + bits % 128) * low == 128 * n
        }),
{
    let scaled = n * high;
    assert(128 <= scaled < 256) by (nonlinear_arith)
        requires
            low <= n < 2 * low,
            low * high == 128,
            0 < low,
            scaled == n * high,
    ;
    assert(scaled * low == 128 * n) by (nonlinear_arith)
        requires
            low * high == 128,
            scaled == n * high,
    ;
}

/// Law: a negative number has its magnitude's pattern with the sign bit set.
pub proof fn law_the_sign_is_the_top_bit(n: int)
    ensures
        0 < n ==> bf16_of_integer(-n) == 0x8000 + bf16_of_integer(n),
        0 <= n ==> bf16_of_integer(n) == bf16_of_natural(n),
{
}

/// Law: the pattern of `n` quarters, read as a float, is a quarter of `n`.
pub proof fn law_a_pattern_holds_its_quarters(n: int)
    requires
        0 < n <= 4,
    ensures
        ({
            let bits = bf16_of_quarters(n);
            let exponent = bits / 128 - 127;
            &&& -2 <= exponent <= 0
            &&& (128 + bits % 128) * pow2((exponent + 2) as nat) == 128 * n
        }),
        bf16_of_quarters(-n) == 0x8000 + bf16_of_quarters(n),
        bf16_of_quarters(0) == 0,
{
    law_a_pattern_holds_its_number(n);
    vstd::arithmetic::power2::lemma2_to64();
    let bits = bf16_of_natural(n);
    let exponent = bits / 128 - 127;
    let power = pow2(exponent as nat) as int;
    let leading = 128 + bits % 128;
    if 2 < exponent {
        assert(exponent == 3 || exponent == 4 || exponent == 5 || exponent == 6 || exponent == 7);
        assert(1024 <= leading * power) by (nonlinear_arith)
            requires
                128 <= leading,
                8 <= power,
        ;
    }
}

} // verus!
