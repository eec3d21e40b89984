//! The descriptor-transpose probe: operand encodings whose product tells which
//! axis a wrong geometry got wrong, the geometries it sweeps, and what a sweep's
//! results mean.

use crate::arith::{lemma_join_bounds, lemma_split, lemma_split_bounds};
use crate::bf16::{bf16_from_natural, bf16_of_natural};
use crate::float_order::{exceeds, f32_exceeds};
use crate::tally::{law_picked_are_the_places_in_order, lemma_picked_len, picked, Tally};
use vstd::prelude::*;

verus! {

/// Rows of the probe's output.
pub const PROBE_M: usize = 128;

/// Columns of the probe's output.
pub const PROBE_N: usize = 64;

/// Depth of the probe's reduction.
pub const PROBE_K: usize = 64;

/// What the operands hold.
#[derive(Clone, Copy, PartialEq, Eq, Structural, Debug)]
pub enum Encoding {
    /// Noise.
    Random,
    /// The outer product of the row and column numbers.
    Outer,
    /// Each row of `A` picks one depth, `B` holds the depths.
    AWalk,
    /// `A` holds the depths, each column of `B` picks one.
    BWalk,
}

/// `A[m, k]` of a structured encoding.
pub open spec fn structured_a(encoding: Encoding, m: int, k: int) -> int {
    match encoding {
        Encoding::Random => 0,
        Encoding::Outer => if k == 0 {
            m + 1
        } else {
            0
        },
        Encoding::AWalk => if k == m % 64 {
            1
        } else {
            0
        },
        Encoding::BWalk => k + 1,
    }
}

/// `B[n, k]` of a structured encoding.
pub open spec fn structured_b(encoding: Encoding, n: int, k: int) -> int {
    match encoding {
        Encoding::Random => 0,
        Encoding::Outer => if k == 0 {
            n + 1
        } else {
            0
        },
        Encoding::AWalk => k + 1,
        Encoding::BWalk => if k == n {
            1
        } else {
            0
        },
    }
}

/// The reduction of a structured encoding over its first `depth` steps.
pub open spec fn structured_product(encoding: Encoding, m: int, n: int, depth: int) -> int
    decreases depth,
{
    if depth <= 0 {
        0
    } else {
        structured_product(encoding, m, n, depth - 1) + structured_a(encoding, m, depth - 1)
            * structured_b(encoding, n, depth - 1)
    }
}

/// What a structured encoding makes of `C[m, n]`.
pub open spec fn structured_c(encoding: Encoding, m: int, n: int) -> int {
    match encoding {
        Encoding::Random => 0,
        Encoding::Outer => (m + 1) * (n + 1),
        Encoding::AWalk => m % 64 + 1,
        Encoding::BWalk => n + 1,
    }
}

proof fn lemma_structured_prefix(encoding: Encoding, m: int, n: int, depth: int)
    requires
        0 <= m < PROBE_M,
        0 <= n < PROBE_N,
        0 <= depth <= PROBE_K,
    ensures
        structured_product(encoding, m, n, depth) == match encoding {
            Encoding::Random => 0,
            Encoding::Outer => if depth > 0 {
                (m + 1) * (n + 1)
            } else {
                0
            },
            Encoding::AWalk => if depth > m % 64 {
                m % 64 + 1
            } else {
                0
            },
            Encoding::BWalk => if depth > n {
                n + 1
            } else {
                0
            },
        },
    decreases depth,
{
    if depth > 0 {
        lemma_structured_prefix(encoding, m, n, depth - 1);
        let a = structured_a(encoding, m, depth - 1);
        let b = structured_b(encoding, n, depth - 1);
        assert(a == 0 ==> a * b == 0) by (nonlinear_arith);
        assert(b == 0 ==> a * b == 0) by (nonlinear_arith);
        assert(a == 1 ==> a * b == b) by (nonlinear_arith);
        assert(b == 1 ==> a * b == a) by (nonlinear_arith);
    }
}

/// Law: a structured encoding's product reads out what it was made to read out:
/// the row and column numbers, the depth a row of `A` paired with, or the depth
/// a column of `B` did.
pub proof fn law_structured_products(encoding: Encoding, m: int, n: int)
    requires
        0 <= m < PROBE_M,
        0 <= n < PROBE_N,
    ensures
        structured_product(encoding, m, n, PROBE_K as int) == structured_c(encoding, m, n),
{
    lemma_structured_prefix(encoding, m, n, 64);
}

impl Encoding {
    /// The encoding's name.
    pub fn name(self) -> (name: &'static str)
        ensures
            name@ == match self {
                Encoding::Random => "random"@,
                Encoding::Outer => "outer"@,
                Encoding::AWalk => "a_walk"@,
                Encoding::BWalk => "b_walk"@,
            },
    {
        match self {
            Encoding::Random => "random",
            Encoding::Outer => "outer",
            Encoding::AWalk => "a_walk",
            Encoding::BWalk => "b_walk",
        }
    }

    /// Absolute and relative tolerance, as fp32 patterns: 0.02 and 0.01 for
    /// noise, and none at all for what is exact.
    pub fn tolerance(self) -> (patterns: (u32, u32))
        ensures
            patterns == if self == Encoding::Random {
                (0x3ca3_d70au32, 0x3c23_d70au32)
            } else {
                (0u32, 0u32)
            },
    {
        match self {
            Encoding::Random => (0x3ca3_d70a, 0x3c23_d70a),
            _ => (0, 0),
        }
    }

    /// The operands of a structured encoding, as bf16 patterns: `A` as `[m, k]`,
    /// `B` as `[n, k]`. Noise has none of its own.
    pub fn operands(self) -> (operands: Option<(Vec<u16>, Vec<u16>)>)
        ensures
            match operands {
                Some((a, b)) => {
                    &&& self != Encoding::Random
                    &&& a@.len() == PROBE_M * PROBE_K
                    &&& b@.len() == PROBE_N * PROBE_K
                    &&& forall|i: int|
                        0 <= i < a@.len() ==> #[trigger] a@[i] == bf16_of_natural(
                            structured_a(self, i / 64, i % 64),
                        )
                    &&& forall|i: int|
                        0 <= i < b@.len() ==> #[trigger] b@[i] == bf16_of_natural(
                            structured_b(self, i / 64, i % 64),
                        )
                },
                None => self == Encoding::Random,
            },
            operands matches Some((a, b)) ==> {
                &&& a@.len() == 8192 && b@.len() == 4096
                &&& forall|i: int|
                    0 <= i < 8192 ==> #[trigger] a@[i] == bf16_of_natural(
                        if self == Encoding::Outer {
                            if i % 64 == 0 {
                                i / 64 + 1
                            } else {
                                0
                            }
                        } else if self == Encoding::AWalk {
                            if i % 64 == (i / 64) % 64 {
                                1
                            } else {
                                0
                            }
                        } else {
                            i % 64 + 1
                        },
                    )
                &&& forall|i: int|
                    0 <= i < 4096 ==> #[trigger] b@[i] == bf16_of_natural(
                        if self == Encoding::Outer {
                            if i % 64 == 0 {
                                i / 64 + 1
                            } else {
                                0
                            }
                        } else if self == Encoding::BWalk {
                            if i % 64 == i / 64 {
                                1
                            } else {
                                0
                            }
                        } else {
                            i % 64 + 1
                        },
                    )
            },
    {
        if self == Encoding::Random {
            return None;
        }
        let mut a: Vec<u16> = Vec::new();
        for i in 0..8192usize
            invariant
                self != Encoding::Random,
                a@.len() == i,
                forall|j: int|
                    0 <= j < i ==> #[trigger] a@[j] == bf16_of_natural(
                        structured_a(self, j / 64, j % 64),
                    ),
        {
            let m: usize = i / PROBE_K;
            let k: usize = i % PROBE_K;
            let value: usize = match self {
                Encoding::Random => 0,
                Encoding::Outer => if k == 0 {
                    m + 1
                } else {
                    0
                },
                Encoding::AWalk => if k == m % 64 {
                    1
                } else {
                    0
                },
                Encoding::BWalk => k + 1,
            };
            a.push(bf16_from_natural(value as u8));
        }
        let mut b: Vec<u16> = Vec::new();
        for i in 0..4096usize
            invariant
                self != Encoding::Random,
                b@.len() == i,
                forall|j: int|
                    0 <= j < i ==> #[trigger] b@[j] == bf16_of_natural(
                        structured_b(self, j / 64, j % 64),
                    ),
        {
            let n: usize = i / PROBE_K;
            let k: usize = i % PROBE_K;
            let value: usize = match self {
                Encoding::Random => 0,
                Encoding::Outer => if k == 0 {
                    n + 1
                } else {
                    0
                },
                Encoding::AWalk => k + 1,
                Encoding::BWalk => if k == n {
                    1
                } else {
                    0
                },
            };
            b.push(bf16_from_natural(value as u8));
        }
        Some((a, b))
    }
}

/// The transpose of a row-major matrix, which leads `source`.
pub fn transpose(source: &[u16], rows: usize, columns: usize) -> (output: Vec<u16>)
    requires
        rows * columns <= source@.len(),
    ensures
        is_transpose(source@, output@, rows as int, columns as int),
        output@.len() == rows * columns,
        forall|row: int, column: int|
            0 <= row < rows && 0 <= column < columns ==> #[trigger] output@[rows * column + row]
                == source@[columns * row + column],
{
    assert(source.len() == source@.len());
    let total: usize = rows * columns;
    let mut output: Vec<u16> = Vec::new();
    for place in 0..total
        invariant
            total == rows * columns,
            total <= source@.len(),
            output@.len() == place,
            forall|done: int|
                0 <= done < place ==> #[trigger] output@[done] == source@[columns * (done
                    % rows as int) + done / rows as int],
    {
        proof {
            assert(0 < rows) by (nonlinear_arith)
                requires
                    0 <= place < rows * columns,
                    0 <= rows,
            ;
            lemma_split_bounds(place as int, rows as int, columns as int);
            let row = place as int % rows as int;
            let column = place as int / rows as int;
            lemma_join_bounds(row, column, columns as int, rows as int);
            assert(columns * rows == rows * columns) by (nonlinear_arith);
            assert(row * columns == columns * row) by (nonlinear_arith);
            assert(0 <= columns * row) by (nonlinear_arith)
                requires
                    0 <= row,
            ;
        }
        output.push(source[(place % rows) * columns + place / rows]);
    }
    proof {
        assert forall|row: int, column: int|
            0 <= row < rows && 0 <= column < columns implies #[trigger] output@[rows * column + row]
            == source@[columns * row + column] by {
            lemma_join_bounds(column, row, rows as int, columns as int);
            lemma_split(rows * column + row, rows as int, column, row);
        }
    }
    output
}

/// `output` is the transpose of the row-major `[rows, columns]` matrix that
/// leads `source`.
pub open spec fn is_transpose(
    source: Seq<u16>,
    output: Seq<u16>,
    rows: int,
    columns: int,
) -> bool {
    &&& output.len() == rows * columns
    &&& forall|row: int, column: int|
        0 <= row < rows && 0 <= column < columns ==> #[trigger] output[rows * column + row]
            == source[columns * row + column]
}

/// Law: transposing twice gives a matrix back.
pub proof fn law_transposing_twice_is_identity(
    source: Seq<u16>,
    once: Seq<u16>,
    twice: Seq<u16>,
    rows: int,
    columns: int,
)
    requires
        0 <= rows,
        0 <= columns,
        rows * columns <= source.len(),
        is_transpose(source, once, rows, columns),
        is_transpose(once, twice, columns, rows),
    ensures
        twice == source.take(rows * columns),
{
    assert(rows * columns == columns * rows) by (nonlinear_arith);
    assert(0 <= rows * columns) by (nonlinear_arith)
        requires
            0 <= rows,
            0 <= columns,
    ;
    assert forall|place: int| 0 <= place < rows * columns implies #[trigger] twice[place]
        == source[place] by {
        assert(0 < columns) by (nonlinear_arith)
            requires
                0 <= place < rows * columns,
                0 <= columns,
        ;
        lemma_split_bounds(place, columns, rows);
        let row = place / columns;
        let column = place % columns;
        assert(twice[columns * row + column] == once[rows * column + row]);
        assert(once[rows * column + row] == source[columns * row + column]);
    }
    assert(twice =~= source.take(rows * columns));
}

/// Which staged matrix a geometry reads.
#[derive(Clone, Copy, PartialEq, Eq, Structural, Debug)]
pub enum Source {
    AKMajor,
    AMnWide,
    AMnSubtile,
    BKMajor,
    BMnMajor,
}

/// A tensor map over one of the staged matrices.
#[derive(Clone, Copy, PartialEq, Eq, Structural, Debug)]
pub struct SourceMap {
    pub width: usize,
    pub height: usize,
    pub box_width: usize,
    pub box_height: usize,
    /// Whether boxes are swizzled in 128-byte rows.
    pub swizzled: bool,
}

impl Source {
    /// Place of the source's map among the staged ones.
    pub fn index(self) -> (index: usize)
        ensures
            index == match self {
                Source::AKMajor => 0int,
                Source::AMnWide => 1,
                Source::AMnSubtile => 2,
                Source::BKMajor => 3,
                Source::BMnMajor => 4,
            },
    {
        match self {
            Source::AKMajor => 0,
            Source::AMnWide => 1,
            Source::AMnSubtile => 2,
            Source::BKMajor => 3,
            Source::BMnMajor => 4,
        }
    }

    /// The map of a source.
    pub open spec fn mapped(self) -> SourceMap {
        match self {
            Source::AKMajor => SourceMap {
                width: 64,
                height: 128,
                box_width: 64,
                box_height: 128,
                swizzled: true,
            },
            Source::AMnWide => SourceMap {
                width: 128,
                height: 64,
                box_width: 128,
                box_height: 64,
                swizzled: false,
            },
            Source::AMnSubtile => SourceMap {
                width: 128,
                height: 64,
                box_width: 64,
                box_height: 64,
                swizzled: true,
            },
            Source::BKMajor => SourceMap {
                width: 64,
                height: 64,
                box_width: 64,
                box_height: 64,
                swizzled: true,
            },
            Source::BMnMajor => SourceMap {
                width: 64,
                height: 64,
                box_width: 64,
                box_height: 64,
                swizzled: true,
            },
        }
    }

    /// The map to encode for a source.
    pub fn map(self) -> (map: SourceMap)
        ensures
            map == self.mapped(),
            map.width == if self == Source::AMnWide || self == Source::AMnSubtile {
                128int
            } else {
                64
            },
            map.height == if self == Source::AKMajor {
                128int
            } else {
                64
            },
            map.box_width == if self == Source::AMnWide {
                128int
            } else {
                64
            },
            map.box_height == map.height,
            map.swizzled == (self != Source::AMnWide),
    {
        match self {
            Source::AKMajor => SourceMap {
                width: PROBE_K,
                height: PROBE_M,
                box_width: PROBE_K,
                box_height: PROBE_M,
                swizzled: true,
            },
            Source::AMnWide => SourceMap {
                width: PROBE_M,
                height: PROBE_K,
                box_width: PROBE_M,
                box_height: PROBE_K,
                swizzled: false,
            },
            Source::AMnSubtile => SourceMap {
                width: PROBE_M,
                height: PROBE_K,
                box_width: 64,
                box_height: PROBE_K,
                swizzled: true,
            },
            Source::BKMajor => SourceMap {
                width: PROBE_K,
                height: PROBE_N,
                box_width: PROBE_K,
                box_height: PROBE_N,
                swizzled: true,
            },
            Source::BMnMajor => SourceMap {
                width: PROBE_N,
                height: PROBE_K,
                box_width: PROBE_N,
                box_height: PROBE_K,
                swizzled: true,
            },
        }
    }

    /// Law: a swizzled box is one 128-byte row of bf16 wide, which is all the
    /// swizzle can describe; the one source that needs more is not swizzled.
    pub proof fn law_swizzled_boxes_are_one_row_wide(self)
        ensures
            self.mapped().swizzled ==> self.mapped().box_width * 2 == 128,
            !self.mapped().swizzled ==> self.mapped().box_width * 2 > 128,
            self.mapped().width % self.mapped().box_width == 0,
            self.mapped().height % self.mapped().box_height == 0,
    {
    }
}

/// An operand geometry: where its tile comes from and how the product walks it.
#[derive(Clone, Copy, Debug)]
pub struct Layout {
    pub name: &'static str,
    pub source: Source,
    pub transposed: bool,
    pub tiles: u32,
    pub tile_bytes: u32,
    /// Bytes from one depth-16 chunk to the next.
    pub chunk_step: u32,
    pub leading_bytes: u32,
    pub stride_bytes: u32,
    pub swizzle: u8,
}

impl Layout {
    /// The constant bits of a shared-memory descriptor: the leading and the
    /// stride offset in 16-byte units, 14 bits each at bits 16 and 32; a one at
    /// bit 46; the swizzle in the top three bits.
    pub open spec fn descriptor(self) -> int {
        0x1_0000 * ((self.leading_bytes as int / 16) % 16384) + 0x1_0000_0000 * ((
        self.stride_bytes as int / 16) % 16384) + 0x4000_0000_0000 + 0x2000_0000_0000_0000 * (
        self.swizzle as int % 8)
    }

    /// The descriptor word of the geometry; a kernel adds its address.
    pub fn word(&self) -> (word: u64)
        ensures
            word == self.descriptor(),
    {
        let leading: u64 = ((self.leading_bytes >> 4) & 0x3fff) as u64;
        let stride: u64 = ((self.stride_bytes >> 4) & 0x3fff) as u64;
        let swizzle: u64 = self.swizzle as u64;
        proof {
            let l = self.leading_bytes;
            let s = self.stride_bytes;
            assert((l >> 4) & 0x3fff == (l / 16) % 16384) by (bit_vector);
            assert((s >> 4) & 0x3fff == (s / 16) % 16384) by (bit_vector);
            assert((leading << 16) | (stride << 32) | (1u64 << 46) | (swizzle << 61) == 0x1_0000
                * leading + 0x1_0000_0000 * stride + 0x4000_0000_0000 + 0x2000_0000_0000_0000 * (
            swizzle % 8)) by (bit_vector)
                requires
                    leading < 16384,
                    stride < 16384,
                    swizzle < 256,
            ;
        }
        (leading << 16) | (stride << 32) | (1u64 << 46) | (swizzle << 61)
    }

    /// Law: the fields of a descriptor do not overlap; each can be read back.
    pub proof fn law_descriptor_fields_are_separate(self)
        ensures
            (self.descriptor() / 0x1_0000) % 0x1_0000 == (self.leading_bytes as int / 16) % 16384,
            (self.descriptor() / 0x1_0000_0000) % 16384 == (self.stride_bytes as int / 16) % 16384,
            (self.descriptor() / 0x4000_0000_0000) % 2 == 1,
            self.descriptor() / 0x2000_0000_0000_0000 == self.swizzle as int % 8,
            self.descriptor() % 0x1_0000 == 0,
            self.descriptor() / 0x8000_0000_0000 == 16384 * (self.swizzle as int % 8),
    {
        let leading = (self.leading_bytes as int / 16) % 16384;
        let stride = (self.stride_bytes as int / 16) % 16384;
        let swizzle = self.swizzle as int % 8;
        let top = 1 + 32768 * swizzle;
        let middle = stride + 16384 * top;
        let low = leading + 65536 * middle;
        assert(self.descriptor() == 65536 * low);
        lemma_split(self.descriptor(), 65536, low, 0);
        lemma_split(low, 65536, middle, leading);
        lemma_split(self.descriptor(), 0x1_0000_0000, middle, 65536 * leading);
        lemma_split(middle, 16384, top, stride);
        lemma_split(
            self.descriptor(),
            0x4000_0000_0000,
            top,
            65536 * leading + 0x1_0000_0000 * stride,
        );
        lemma_split(top, 2, 16384 * swizzle, 1);
        lemma_split(
            self.descriptor(),
            0x8000_0000_0000,
            16384 * swizzle,
            65536 * leading + 0x1_0000_0000 * stride + 0x4000_0000_0000,
        );
        lemma_split(
            self.descriptor(),
            0x2000_0000_0000_0000,
            swizzle,
            65536 * leading + 0x1_0000_0000 * stride + 0x4000_0000_0000,
        );
    }
}

/// Number of `A` geometries.
pub const A_LAYOUTS: usize = 5;

/// Number of `B` geometries.
pub const B_LAYOUTS: usize = 2;

/// Descriptor code of the 128-byte swizzle.
pub const SWIZZLE_128B: u8 = 2;

/// Descriptor code of no swizzle.
pub const SWIZZLE_NONE: u8 = 0;

/// An `A` geometry, and the rows its instruction computes.
pub fn a_layout(index: usize) -> (entry: (Layout, usize))
    requires
        index < A_LAYOUTS,
    ensures
        entry.0.name@ == if index == 0 {
            "a_k_major"@
        } else if index == 1 {
            "a_mn_unswizzled"@
        } else if index == 2 {
            "a_mn_split"@
        } else if index == 3 {
            "a_mn_m64"@
        } else {
            "a_k_major_m64"@
        },
        entry.0.source == if index == 0 || index == 4 {
            Source::AKMajor
        } else if index == 1 {
            Source::AMnWide
        } else {
            Source::AMnSubtile
        },
        entry.0.transposed == a_transposed(index as int),
        entry.0.transposed == (index == 1 || index == 2 || index == 3),
        entry.0.swizzle == if index == 1 {
            0int
        } else {
            2
        },
        entry.0.tiles == if index == 2 {
            2int
        } else {
            1
        },
        entry.0.tile_bytes == if index == 2 || index == 3 {
            8192int
        } else {
            16384
        },
        entry.0.chunk_step == if index == 0 || index == 4 {
            32int
        } else if index == 1 {
            4096
        } else {
            2048
        },
        entry.0.leading_bytes == if index == 2 {
            8192int
        } else {
            16
        },
        entry.0.stride_bytes == if index == 1 {
            2048int
        } else {
            1024
        },
        entry.0.swizzle == if index == 1 {
            SWIZZLE_NONE
        } else {
            SWIZZLE_128B
        },
        entry.1 == if index < 3 {
            128int
        } else {
            64
        },
{
    match index {
        0 => (
            Layout {
                name: "a_k_major",
                source: Source::AKMajor,
                transposed: false,
                tiles: 1,
                tile_bytes: 16384,
                chunk_step: 32,
                leading_bytes: 16,
                stride_bytes: 1024,
                swizzle: SWIZZLE_128B,
            },
            128,
        ),
        1 => (
            Layout {
                name: "a_mn_unswizzled",
                source: Source::AMnWide,
                transposed: true,
                tiles: 1,
                tile_bytes: 16384,
                chunk_step: 4096,
                leading_bytes: 16,
                stride_bytes: 2048,
                swizzle: SWIZZLE_NONE,
            },
            128,
        ),
        2 => (
            Layout {
                name: "a_mn_split",
                source: Source::AMnSubtile,
                transposed: true,
                tiles: 2,
                tile_bytes: 8192,
                chunk_step: 2048,
                leading_bytes: 8192,
                stride_bytes: 1024,
                swizzle: SWIZZLE_128B,
            },
            128,
        ),
        3 => (
            Layout {
                name: "a_mn_m64",
                source: Source::AMnSubtile,
                transposed: true,
                tiles: 1,
                tile_bytes: 8192,
                chunk_step: 2048,
                leading_bytes: 16,
                stride_bytes: 1024,
                swizzle: SWIZZLE_128B,
            },
            64,
        ),
        _ => (
            Layout {
                name: "a_k_major_m64",
                source: Source::AKMajor,
                transposed: false,
                tiles: 1,
                tile_bytes: 16384,
                chunk_step: 32,
                leading_bytes: 16,
                stride_bytes: 1024,
                swizzle: SWIZZLE_128B,
            },
            64,
        ),
    }
}

/// An `A` geometry reads its operand transposed.
pub open spec fn a_transposed(index: int) -> bool {
    1 <= index <= 3
}

/// A `B` geometry.
pub fn b_layout(index: usize) -> (layout: Layout)
    requires
        index < B_LAYOUTS,
    ensures
        layout.name@ == if index == 0 {
            "b_k_major"@
        } else {
            "b_mn_major"@
        },
        layout.source == if index == 0 {
            Source::BKMajor
        } else {
            Source::BMnMajor
        },
        layout.transposed == (index == 1),
        layout.tiles == 1,
        layout.tile_bytes == 8192,
        layout.chunk_step == if index == 0 {
            32int
        } else {
            2048
        },
        layout.leading_bytes == 16,
        layout.stride_bytes == 1024,
        layout.swizzle == SWIZZLE_128B,
        layout.swizzle == 2,
{
    if index == 0 {
        Layout {
            name: "b_k_major",
            source: Source::BKMajor,
            transposed: false,
            tiles: 1,
            tile_bytes: 8192,
            chunk_step: 32,
            leading_bytes: 16,
            stride_bytes: 1024,
            swizzle: SWIZZLE_128B,
        }
    } else {
        Layout {
            name: "b_mn_major",
            source: Source::BMnMajor,
            transposed: true,
            tiles: 1,
            tile_bytes: 8192,
            chunk_step: 2048,
            leading_bytes: 16,
            stride_bytes: 1024,
            swizzle: SWIZZLE_128B,
        }
    }
}

/// Places that are shown of a failed comparison.
pub const CHECK_SAMPLES: usize = 4;

/// The largest of the first `count` errors, by value; a NaN is never largest.
pub open spec fn largest(errors: Seq<u32>, count: int) -> u32
    decreases count,
{
    if count <= 0 {
        0
    } else {
        let before = largest(errors, count - 1);
        if exceeds(errors[count - 1], before) {
            errors[count - 1]
        } else {
            before
        }
    }
}

/// Outcome of comparing the drained rows with the oracle.
pub struct Comparison {
    /// The largest absolute error, as an fp32 pattern.
    pub max_abs: u32,
    /// The elements whose error exceeds their tolerance.
    pub failures: Tally,
}

/// Compares the first `rows` rows. `errors` and `tolerances` are the fp32
/// patterns of each element's absolute error and of what it may be.
pub fn check(rows: usize, errors: &[u32], tolerances: &[u32]) -> (comparison: Comparison)
    requires
        rows <= PROBE_M,
        errors@.len() >= rows * PROBE_N,
        tolerances@.len() >= rows * PROBE_N,
    ensures
        comparison.max_abs == largest(errors@, rows * 64),
        comparison.failures.well_formed(),
        comparison.failures.limit() == CHECK_SAMPLES,
        comparison.failures.places() == picked(
            rows * 64,
            |i: int| exceeds(errors@[i], tolerances@[i]),
        ),
        forall|i: int|
            0 <= i < rows * 64 ==> !exceeds(#[trigger] errors@[i], comparison.max_abs),
        comparison.max_abs == 0 || exists|i: int|
            0 <= i < rows * 64 && #[trigger] errors@[i] == comparison.max_abs,
        forall|place: usize| #[trigger]
            comparison.failures.places().contains(place) <==> place < rows * 64 && exceeds(
                errors@[place as int],
                tolerances@[place as int],
            ),
{
    let ghost wrong = |i: int| exceeds(errors@[i], tolerances@[i]);
    let total: usize = rows * PROBE_N;
    let mut max_abs: u32 = 0;
    let mut failures = Tally::new(CHECK_SAMPLES);
    for i in 0..total
        invariant
            total <= 8192,
            errors@.len() >= total,
            tolerances@.len() >= total,
            wrong == (|i: int| exceeds(errors@[i], tolerances@[i])),
            max_abs == largest(errors@, i as int),
            failures.well_formed(),
            failures.limit() == CHECK_SAMPLES,
            failures.places() == picked(i as int, wrong),
    {
        proof {
            lemma_picked_len(i as int, wrong);
            assert(wrong(i as int) == exceeds(errors@[i as int], tolerances@[i as int]));
        }
        if f32_exceeds(errors[i], max_abs) {
            max_abs = errors[i];
        }
        if f32_exceeds(errors[i], tolerances[i]) {
            failures.note(i);
        }
    }
    proof {
        law_picked_are_the_places_in_order(rows * 64, wrong);
        law_the_largest_error_is_one_of_them(errors@, rows * 64);
    }
    Comparison { max_abs, failures }
}

/// What a sweep over all pairs of geometries found.
#[derive(Clone, Copy, PartialEq, Eq, Structural, Debug)]
pub enum Finding {
    /// The pair of untransposed operands failed: the harness is wrong.
    ControlFailed,
    /// No pair of transposed operands passed.
    NoGeometry,
    /// The first pair of transposed operands that passed, by its `A` geometry.
    Geometry(usize),
}

/// Place of a pair of geometries in the table of cases.
pub fn case_index(a: usize, b: usize) -> (index: usize)
    requires
        a < A_LAYOUTS,
        b < B_LAYOUTS,
    ensures
        index == 2 * a + b,
{
    a * B_LAYOUTS + b
}

/// Reads a table of cases, each passed on every encoding or not.
pub fn finding(passed: &[bool]) -> (found: Finding)
    requires
        passed@.len() == A_LAYOUTS * B_LAYOUTS,
    ensures
        match found {
            Finding::ControlFailed => !passed@[0],
            Finding::NoGeometry => passed@[0] && forall|a: int|
                0 <= a < A_LAYOUTS && #[trigger] a_transposed(a) ==> !passed@[2 * a + 1],
            Finding::Geometry(first) => {
                &&& passed@[0]
                &&& first < A_LAYOUTS
                &&& a_transposed(first as int)
                &&& passed@[2 * first + 1]
                &&& forall|a: int|
                    0 <= a < first && #[trigger] a_transposed(a) ==> !passed@[2 * a + 1]
            },
        },
        found == if !passed@[0] {
            Finding::ControlFailed
        } else if passed@[3] {
            Finding::Geometry(1)
        } else if passed@[5] {
            Finding::Geometry(2)
        } else if passed@[7] {
            Finding::Geometry(3)
        } else {
            Finding::NoGeometry
        },
{
    if !passed[case_index(0, 0)] {
        return Finding::ControlFailed;
    }
    for a in 0..A_LAYOUTS
        invariant
            passed@.len() == A_LAYOUTS * B_LAYOUTS,
            passed@[0],
            forall|earlier: int|
                0 <= earlier < a && #[trigger] a_transposed(earlier) ==> !passed@[2 * earlier + 1],
    {
        let (layout, rows) = a_layout(a);
        if layout.transposed && b_layout(1).transposed && passed[case_index(a, 1)] {
            proof {
                let tried = |earlier: int| a_transposed(earlier);
                assert(tried(1) && tried(2) && tried(3));
            }
            return Finding::Geometry(a);
        }
    }
    proof {
        let tried = |earlier: int| a_transposed(earlier);
        assert(tried(1) && tried(2) && tried(3));
    }
    Finding::NoGeometry
}

/// Law: no error is larger than the largest, and that is one of them, or zero where
/// none is positive.
pub proof fn law_the_largest_error_is_one_of_them(errors: Seq<u32>, count: int)
    requires
        0 <= count <= errors.len(),
    ensures
        !crate::float_order::is_nan(largest(errors, count)),
        forall|i: int| 0 <= i < count ==> !exceeds(#[trigger] errors[i], largest(errors, count)),
        largest(errors, count) == 0 || exists|i: int|
            0 <= i < count && #[trigger] errors[i] == largest(errors, count),
    decreases count,
{
    if 0 < count {
        law_the_largest_error_is_one_of_them(errors, count - 1);
        assert(errors[count - 1] == errors[count - 1]);
    }
}

/// Law: what the structured encodings read out, over the whole depth: the product
/// of the row's and the column's number, counted from one; the depth that a row of
/// `A` picks, the 64 in turn; the depth that a column of `B` picks.
pub proof fn law_what_the_encodings_read_out(m: int, n: int)
    requires
        0 <= m < 128,
        0 <= n < 64,
    ensures
        structured_product(Encoding::Outer, m, n, 64) == (m + 1) * (n + 1),
        structured_product(Encoding::AWalk, m, n, 64) == m % 64 + 1,
        structured_product(Encoding::BWalk, m, n, 64) == n + 1,
{
    lemma_structured_prefix(Encoding::Outer, m, n, 64);
    lemma_structured_prefix(Encoding::AWalk, m, n, 64);
    lemma_structured_prefix(Encoding::BWalk, m, n, 64);
}

} // verus!
