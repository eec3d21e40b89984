//! The multicast accounting probe: which blocks of a four-block cluster issue a
//! replicating copy, what each charges its barrier, and how the report is read.

use crate::bf16::{bf16_from_natural, bf16_of_natural, law_a_pattern_holds_its_number};
use vstd::prelude::*;

verus! {

/// Rows of the staged tile.
pub const TILE_ROWS: usize = 128;

/// Columns of the staged tile: one 128-byte swizzle row of bf16.
pub const TILE_COLS: usize = 64;

/// Bytes of the staged tile.
pub const TILE_BYTES: usize = 16384;

/// Blocks of the cluster under test.
pub const RANKS: u32 = 4;

/// Variants, one cluster each.
pub const VARIANTS: u32 = 5;

/// Words one block reports: entered, completed, first, last, charged, mask.
pub const FIELDS: usize = 6;

/// Tiles that a rank charges its barrier for.
pub open spec fn charged_tiles_of(variant: int, rank: int) -> int {
    if variant == 0 {
        if rank == 0 || rank == 2 {
            1
        } else {
            0
        }
    } else if variant == 1 {
        if rank == 0 {
            1
        } else {
            0
        }
    } else if variant == 2 {
        if rank == 0 {
            2
        } else {
            0
        }
    } else if variant == 3 {
        if rank == 0 || rank == 2 {
            1
        } else {
            0
        }
    } else if variant == 4 {
        if rank == 0 || rank == 2 {
            2
        } else {
            0
        }
    } else {
        0
    }
}

/// Bytes that a rank charges its barrier for.
pub fn charge(variant: u32, rank: u32) -> (bytes: u32)
    ensures
        bytes == TILE_BYTES * charged_tiles_of(variant as int, rank as int),
        bytes == if (variant == 0 || variant == 3) && (rank == 0 || rank == 2) || variant == 1
            && rank == 0 {
            16384int
        } else if variant == 2 && rank == 0 || variant == 4 && (rank == 0 || rank == 2) {
            32768
        } else {
            0
        },
{
    let tiles: u32 = match (variant, rank) {
        (0, 0) | (0, 2) => 1,
        (1, 0) => 1,
        (2, 0) => 2,
        (3, 0) | (3, 2) => 1,
        (4, 0) | (4, 2) => 2,
        _ => 0,
    };
    tiles * (TILE_BYTES as u32)
}

/// A rank issues a copy in a variant.
pub open spec fn issues_in(variant: int, rank: int) -> bool {
    if variant == 0 {
        rank == 0
    } else if variant == 4 {
        rank < 2
    } else {
        rank == 1
    }
}

/// Whether a rank issues a copy.
pub fn issues(variant: u32, rank: u32) -> (issue: bool)
    ensures
        issue == issues_in(variant as int, rank as int),
        variant == 0 ==> issue == (rank == 0),
        variant == 4 ==> issue == (rank == 0 || rank == 1),
        variant != 0 && variant != 4 ==> issue == (rank == 1),
{
    match variant {
        0 => rank == 0,
        4 => rank < 2,
        _ => rank == 1,
    }
}

/// A copy that rank `rank` issues also reaches `destination`: the same rank of
/// either pair.
pub open spec fn reaches(rank: int, destination: int) -> bool {
    destination == rank || destination == rank + 2
}

/// Destinations of a rank's copy, as a mask with one bit per rank.
pub fn copy_mask(rank: u32) -> (mask: u16)
    requires
        rank < 2,
    ensures
        mask == if rank == 0 {
            5int
        } else {
            10
        },
        forall|destination: u16|
            destination < 4 ==> (#[trigger] (mask >> destination) % 2 == 1 <==> reaches(
                rank as int,
                destination as int,
            )),
{
    let mask: u32 = (1u32 << rank) | (1u32 << (rank + 2));
    proof {
        if rank == 0 {
            assert((1u32 << 0u32) | (1u32 << 2u32) == 5) by (bit_vector);
            assert forall|destination: u16| destination < 4 implies (#[trigger] (5u16
                >> destination) % 2 == 1 <==> reaches(0, destination as int)) by {
                assert((5u16 >> destination) % 2 == 1 <==> (destination == 0 || destination == 2))
                    by (bit_vector)
                    requires
                        destination < 4,
                ;
            }
        } else {
            assert((1u32 << 1u32) | (1u32 << 3u32) == 10) by (bit_vector);
            assert forall|destination: u16| destination < 4 implies (#[trigger] (10u16
                >> destination) % 2 == 1 <==> reaches(1, destination as int)) by {
                assert((10u16 >> destination) % 2 == 1 <==> (destination == 1 || destination == 3))
                    by (bit_vector)
                    requires
                        destination < 4,
                ;
            }
        }
    }
    mask as u16
}

/// First row of the matrix that a rank's copy fetches.
pub fn copy_row(rank: u32) -> (row: i32)
    requires
        rank < RANKS,
    ensures
        row == TILE_ROWS * rank,
        row == 128 * rank,
{
    ((TILE_ROWS as u32) * rank) as i32
}

/// Where a replicating copy's arrivals may be counted.
#[derive(Clone, Copy, PartialEq, Eq, Structural, Debug)]
pub enum Reading {
    /// Each destination's own barrier.
    PerDestination,
    /// The named barrier, once a copy.
    AbsoluteOnce,
    /// The named barrier, once a destination.
    AbsoluteEach,
    /// The leading barrier of each destination's pair.
    PairLeader,
}

/// The reading that a variant's charges are made for.
pub open spec fn reading_of(variant: int) -> Reading {
    if variant == 0 {
        Reading::PerDestination
    } else if variant == 1 {
        Reading::AbsoluteOnce
    } else if variant == 2 {
        Reading::AbsoluteEach
    } else {
        Reading::PairLeader
    }
}

/// Tiles that arrive at a rank's barrier for one copy of `issuer`, under a
/// reading; the barrier a copy names is rank 0's.
pub open spec fn arrivals_of_copy(reading: Reading, issuer: int, rank: int) -> int {
    match reading {
        Reading::PerDestination => if reaches(issuer, rank) {
            1
        } else {
            0
        },
        Reading::AbsoluteOnce => if rank == 0 {
            1
        } else {
            0
        },
        Reading::AbsoluteEach => if rank == 0 {
            2
        } else {
            0
        },
        Reading::PairLeader => if rank % 2 == 0 && (reaches(issuer, rank) || reaches(
            issuer,
            rank + 1,
        )) {
            1
        } else {
            0
        },
    }
}

/// Tiles that arrive at a rank's barrier in a variant, over its issuing ranks.
pub open spec fn arrivals(reading: Reading, variant: int, rank: int) -> int {
    (if issues_in(variant, 0) {
        arrivals_of_copy(reading, 0, rank)
    } else {
        0
    }) + (if issues_in(variant, 1) {
        arrivals_of_copy(reading, 1, rank)
    } else {
        0
    })
}

/// Law: each variant charges exactly what arrives under the reading it asks
/// about, so its barriers complete if and only if that reading is the hardware's
/// at every charged rank.
pub proof fn law_charges_are_what_arrives(variant: int, rank: int)
    requires
        0 <= variant < VARIANTS,
        0 <= rank < RANKS,
    ensures
        charged_tiles_of(variant, rank) == arrivals(reading_of(variant), variant, rank),
{
}

/// "yes" or "no".
pub fn yes_no(ok: bool) -> (answer: &'static str)
    ensures
        answer@ == if ok {
            "yes"@
        } else {
            "no"@
        },
{
    if ok {
        "yes"
    } else {
        "no"
    }
}

/// The bf16 pattern that every element of a row of the matrix holds: the row's
/// number.
pub fn row_value(row: usize) -> (bits: u16)
    requires
        row < 256,
    ensures
        bits == bf16_of_natural(row as int),
{
    bf16_from_natural(row as u8)
}

/// The staged matrix: 256 rows of 64 elements, each its row's number.
pub fn matrix() -> (elements: Vec<u16>)
    ensures
        elements@.len() == 2 * TILE_ROWS * TILE_COLS,
        forall|i: int|
            0 <= i < elements@.len() ==> #[trigger] elements@[i] == bf16_of_natural(i / 64),
{
    let mut elements: Vec<u16> = Vec::new();
    for i in 0..16384usize
        invariant
            elements@.len() == i,
            forall|j: int| 0 <= j < i ==> #[trigger] elements@[j] == bf16_of_natural(j / 64),
    {
        elements.push(row_value(i / TILE_COLS));
    }
    elements
}

/// What a block's first and last elements say it received.
#[derive(Clone, Copy, PartialEq, Eq, Structural, Debug)]
pub enum Received {
    /// The half that this rank fetches: rows `128 * rank` and on.
    Half(usize),
    Nothing,
    Unknown,
}

/// The half that a rank fetches begins and ends with these words.
pub open spec fn is_half(issuer: int, first: u64, last: u64) -> bool {
    first == bf16_of_natural(128 * issuer) && last == bf16_of_natural(128 * issuer + 127)
}

/// Reads the first and last element of a received tile.
pub fn received(first: u64, last: u64) -> (half: Received)
    ensures
        half == if is_half(0, first, last) {
            Received::Half(0)
        } else if is_half(1, first, last) {
            Received::Half(1)
        } else if first == 0 && last == 0 {
            Received::Nothing
        } else {
            Received::Unknown
        },
        half == Received::Half(0) <==> first == 0 && last == bf16_of_natural(127),
        half == Received::Half(1) <==> first == bf16_of_natural(128) && last == bf16_of_natural(
            255,
        ),
        half == Received::Nothing <==> first == 0 && last == 0,
{
    proof {
        law_a_pattern_holds_its_number(127);
        law_a_pattern_holds_its_number(128);
        law_a_pattern_holds_its_number(255);
    }
    if first == row_value(0) as u64 && last == row_value(127) as u64 {
        Received::Half(0)
    } else if first == row_value(128) as u64 && last == row_value(255) as u64 {
        Received::Half(1)
    } else if first == 0 && last == 0 {
        Received::Nothing
    } else {
        Received::Unknown
    }
}

/// Offset of a block's words in the report.
pub open spec fn report_base(variant: int, rank: int) -> int {
    FIELDS * (RANKS * variant + rank)
}

/// In the report, a rank that charged its barrier saw it complete.
pub open spec fn charge_completed(report: Seq<u64>, variant: int, rank: int) -> bool {
    let base = report_base(variant, rank);
    report[base + 4] > 0 ==> report[base + 1] == 1
}

/// Whether every rank of a variant that charged its barrier saw it complete.
pub fn verdict(report: &[u64], variant: u32) -> (ok: bool)
    requires
        variant < VARIANTS,
        report@.len() == FIELDS * (VARIANTS * RANKS),
    ensures
        ok <==> forall|rank: int|
            0 <= rank < RANKS ==> #[trigger] charge_completed(report@, variant as int, rank),
        ok <==> {
            &&& report@[24 * variant + 4] > 0 ==> report@[24 * variant + 1] == 1
            &&& report@[24 * variant + 10] > 0 ==> report@[24 * variant + 7] == 1
            &&& report@[24 * variant + 16] > 0 ==> report@[24 * variant + 13] == 1
            &&& report@[24 * variant + 22] > 0 ==> report@[24 * variant + 19] == 1
        },
{
    let mut ok: bool = true;
    for rank in 0..RANKS
        invariant
            variant < VARIANTS,
            report@.len() == FIELDS * (VARIANTS * RANKS),
            ok <==> forall|r: int|
                0 <= r < rank ==> #[trigger] charge_completed(report@, variant as int, r),
    {
        let base: usize = FIELDS * ((variant * RANKS + rank) as usize);
        assert(base == report_base(variant as int, rank as int));
        if report[base + 4] > 0 && report[base + 1] != 1 {
            assert(!charge_completed(report@, variant as int, rank as int));
            ok = false;
        }
        assert(ok ==> charge_completed(report@, variant as int, rank as int));
    }
    proof {
        let v = variant as int;
        let done = |rank: int| charge_completed(report@, v, rank);
        assert(done(0) && done(1) && done(2) && done(3) <==> forall|rank: int|
            0 <= rank < RANKS ==> #[trigger] charge_completed(report@, v, rank));
    }
    ok
}

/// What the verdicts say about a four-block cluster.
#[derive(Clone, Copy, PartialEq, Eq, Structural, Debug)]
pub enum Conclusion {
    /// Every copy charges its destination's pair leader: one barrier per pair
    /// suffices.
    PairLeader,
    /// Delivery and charge are per destination, but a pair leader has to be told.
    PerDestination,
    /// A replicating copy signals one block only.
    SingleBlock,
}

/// Draws the conclusion from the five verdicts.
pub fn conclusion(verdicts: &[bool]) -> (answer: Conclusion)
    requires
        verdicts@.len() == VARIANTS,
    ensures
        answer == if verdicts@[3] && verdicts@[4] {
            Conclusion::PairLeader
        } else if verdicts@[0] {
            Conclusion::PerDestination
        } else {
            Conclusion::SingleBlock
        },
{
    if verdicts[3] && verdicts[4] {
        Conclusion::PairLeader
    } else if verdicts[0] {
        Conclusion::PerDestination
    } else {
        Conclusion::SingleBlock
    }
}

} // verus!
