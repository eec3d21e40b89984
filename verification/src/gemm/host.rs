//! Host side of the tensor-core product: its tile contract, the tensor maps its
//! operands are read through, and the arguments of its launches.

use crate::arith::lemma_mul_monotone;
use crate::launch::LaunchConfig;
use crate::profile::KernelBudget;
use vstd::prelude::*;

verus! {

/// Rows of `A` one rank stages.
pub const TC_TILE: usize = 128;

/// Depth of one reduction stage; `k` is a multiple of it.
pub const TC_BK: usize = 64;

/// Output rows of one work item, a pair of blocks.
pub const TC_M_TILE: usize = 256;

/// Output columns a shape's eligibility is tested against.
pub const TC_N_TILE: usize = 256;

/// Output columns of one work item.
pub const TC_N_ITEM: usize = 128;

/// Rows of `B` one rank stages.
pub const TC_B_TILE: usize = 64;

/// Bytes of one tensor map, and the distance between the two boxes of a pair.
pub const TC_MAP_BYTES: usize = 128;

/// Depth unit a shape's eligibility is tested against; a launch asks only for a
/// multiple of `TC_BK`.
pub const TC_K_PIPELINE: usize = 256;

/// Blocks of a cluster.
pub const TC_RANKS: u32 = 2;

/// Threads of a block: one drain warp per 32 accumulator rows, the producer and
/// the issuer.
pub const TC_THREADS: u32 = crate::gemm::narrow::THREADS;

/// Clusters a persistent grid has at most.
pub const MAX_CLUSTERS: u32 = 148;

/// Dynamic shared bytes of a block.
pub const SHARED_BYTES: u32 = 114816;

/// Work items of an `[m, n]` output.
pub open spec fn work_items(m: int, n: int) -> int {
    (m / TC_M_TILE as int) * (n / TC_N_ITEM as int)
}

/// Launch of the tensor-core product: a persistent grid of whole clusters, one
/// per work item up to what the device holds.
pub fn tcgen05_launch_config(m: usize, n: usize, k: usize) -> (config: LaunchConfig)
    requires
        m % TC_M_TILE == 0,
        n % TC_N_TILE == 0,
        k % TC_BK == 0,
        m <= u32::MAX,
        n <= u32::MAX,
        k <= u32::MAX,
        work_items(m as int, n as int) <= usize::MAX,
    ensures
        config == (LaunchConfig {
            grid_dim: (
                (2 * if work_items(m as int, n as int) < MAX_CLUSTERS {
                    work_items(m as int, n as int)
                } else {
                    MAX_CLUSTERS as int
                }) as u32,
                1,
                1,
            ),
            block_dim: (TC_THREADS, 1, 1),
            shared_mem_bytes: SHARED_BYTES,
        }),
        config.grid_dim.0 % TC_RANKS == 0,
        config.grid_dim.0 <= TC_RANKS * MAX_CLUSTERS,
        config.grid_dim.0 <= TC_RANKS * work_items(m as int, n as int),
        config.grid_dim.0 == 2 * if (m as int / 256) * (n as int / 128) < 148 {
            (m as int / 256) * (n as int / 128)
        } else {
            148
        },
        config.block_dim.0 == 192,
        config.shared_mem_bytes == 114816,
{
    tcgen05_launch_config_over(m, n, k, MAX_CLUSTERS)
}

/// The same launch over a persistent grid of at most `width` clusters.
pub fn tcgen05_launch_config_over(m: usize, n: usize, k: usize, width: u32) -> (config: LaunchConfig)
    requires
        m % TC_M_TILE == 0,
        n % TC_N_TILE == 0,
        k % TC_BK == 0,
        m <= u32::MAX,
        n <= u32::MAX,
        k <= u32::MAX,
        work_items(m as int, n as int) <= usize::MAX,
        TC_RANKS * width <= u32::MAX,
    ensures
        config == (LaunchConfig {
            grid_dim: (
                (2 * if work_items(m as int, n as int) < width {
                    work_items(m as int, n as int)
                } else {
                    width as int
                }) as u32,
                1,
                1,
            ),
            block_dim: (TC_THREADS, 1, 1),
            shared_mem_bytes: SHARED_BYTES,
        }),
        0 <= work_items(m as int, n as int),
        config.grid_dim.0 == 2 * if (m as int / 256) * (n as int / 128) < width {
            (m as int / 256) * (n as int / 128)
        } else {
            width as int
        },
        config.block_dim.0 == 192,
        config.shared_mem_bytes == 114816,
{
    proof {
        assert(0 <= work_items(m as int, n as int)) by (nonlinear_arith)
            requires
                work_items(m as int, n as int) == (m as int / 256) * (n as int / 128),
                0 <= m as int / 256,
                0 <= n as int / 128,
        ;
    }
    let tiles: usize = (m / TC_M_TILE) * (n / TC_N_ITEM);
    let clusters: u32 = if tiles < width as usize {
        tiles as u32
    } else {
        width
    };
    LaunchConfig {
        grid_dim: (TC_RANKS * clusters, 1, 1),
        block_dim: (TC_THREADS, 1, 1),
        shared_mem_bytes: SHARED_BYTES,
    }
}

/// How an operand is stored, which fixes the box it is read in.
#[derive(Clone, Copy, PartialEq, Eq, Structural, Debug)]
pub enum TmaLayout {
    /// Stored `[MN, K]`, depth contiguous.
    KMajor,
    /// Stored `[K, MN]`, read in square boxes of one swizzle row.
    MnMajor,
}

/// Which side of the product a box is for.
#[derive(Clone, Copy, PartialEq, Eq, Structural, Debug)]
pub enum Operand {
    A,
    B,
}

impl TmaLayout {
    /// Rows of a box.
    pub open spec fn box_rows(self, operand: Operand) -> int {
        match (self, operand) {
            (TmaLayout::MnMajor, _) => 64,
            (TmaLayout::KMajor, Operand::A) => 128,
            (TmaLayout::KMajor, Operand::B) => 64,
        }
    }

    /// Columns and rows of the box an operand is read in.
    pub fn box_dimensions(self, operand: Operand) -> (extent: [u32; 2])
        ensures
            extent@ == seq![64u32, self.box_rows(operand) as u32],
            extent@[0] == 64,
            extent@[1] == if self == TmaLayout::KMajor && operand == Operand::A {
                128int
            } else {
                64
            },
    {
        let rows: usize = match (self, operand) {
            (TmaLayout::MnMajor, _) => TC_BK,
            (TmaLayout::KMajor, Operand::A) => TC_TILE,
            (TmaLayout::KMajor, Operand::B) => TC_B_TILE,
        };
        let extent: [u32; 2] = [TC_BK as u32, rows as u32];
        assert(extent@ =~= seq![64u32, self.box_rows(operand) as u32]);
        extent
    }

    /// Unit that the height of a mapped matrix is a multiple of.
    pub open spec fn height_unit(self) -> int {
        match self {
            TmaLayout::KMajor => 128,
            TmaLayout::MnMajor => 64,
        }
    }

    /// Width and height of an operand of `lines` lines of `depth` elements: the
    /// bytes are the same either way, and the layout says which axis is the width.
    pub open spec fn extent_of(self, lines: int, depth: int) -> (int, int) {
        match self {
            TmaLayout::KMajor => (depth, lines),
            TmaLayout::MnMajor => (lines, depth),
        }
    }

    /// Width and height of the map of an operand.
    pub fn extent(self, lines: usize, depth: usize) -> (extent: (usize, usize))
        ensures
            (extent.0 as int, extent.1 as int) == self.extent_of(lines as int, depth as int),
            self == TmaLayout::KMajor ==> extent == (depth, lines),
            self == TmaLayout::MnMajor ==> extent == (lines, depth),
    {
        match self {
            TmaLayout::KMajor => (depth, lines),
            TmaLayout::MnMajor => (lines, depth),
        }
    }

    /// The flag a launch passes to its kernel.
    pub fn transposed_flag(self) -> (flag: u32)
        ensures
            flag == if self == TmaLayout::MnMajor {
                1int
            } else {
                0
            },
    {
        match self {
            TmaLayout::KMajor => 0,
            TmaLayout::MnMajor => 1,
        }
    }
}

/// Element type of a tensor map.
#[derive(Clone, Copy, PartialEq, Eq, Structural, Debug)]
pub enum MapElement {
    Bf16,
    F32,
}

/// A two-dimensional tensor map with 128-byte swizzle, unit element steps and no
/// fill, as the driver's encoder takes it.
#[derive(Clone, Copy, PartialEq, Eq, Structural, Debug)]
pub struct TensorMap {
    pub element: MapElement,
    /// Device address of the first element.
    pub base: u64,
    pub width: u64,
    pub height: u64,
    pub row_bytes: u64,
    pub box_width: u32,
    pub box_height: u32,
}

/// The map of one operand box over a strided bf16 matrix.
pub open spec fn bf16_map(
    base: u64,
    width: usize,
    height: usize,
    row_stride: usize,
    layout: TmaLayout,
    operand: Operand,
) -> TensorMap {
    TensorMap {
        element: MapElement::Bf16,
        base,
        width: width as u64,
        height: height as u64,
        row_bytes: (row_stride * 2) as u64,
        box_width: 64,
        box_height: layout.box_rows(operand) as u32,
    }
}

/// A matrix that bf16 maps can be made over.
pub open spec fn mappable(width: int, height: int, row_stride: int, layout: TmaLayout) -> bool {
    &&& width % TC_BK as int == 0
    &&& height % layout.height_unit() == 0
    &&& width <= row_stride
    &&& row_stride * 2 <= usize::MAX
}

/// The two maps of a bf16 matrix: the box it is read in as `A`, then as `B`. A
/// matrix is routinely both, so every map carries the pair.
#[derive(Clone, Copy, PartialEq, Eq, Structural, Debug)]
pub struct Bf16TmaMap {
    pub a: TensorMap,
    pub b: TensorMap,
}

/// The two maps of a packed-pair bf16 matrix.
#[derive(Clone, Copy, PartialEq, Eq, Structural, Debug)]
pub struct Bf16PairsTmaMap {
    pub a: TensorMap,
    pub b: TensorMap,
}

/// The map of one operand box.
fn operand_map(
    base: u64,
    width: usize,
    height: usize,
    row_stride: usize,
    layout: TmaLayout,
    operand: Operand,
) -> (map: TensorMap)
    requires
        mappable(width as int, height as int, row_stride as int, layout),
    ensures
        map == bf16_map(base, width, height, row_stride, layout, operand),
        map.element == MapElement::Bf16 && map.base == base,
        map.width == width && map.height == height,
        map.row_bytes == 2 * row_stride,
        map.box_width == 64,
        map.box_height == if layout == TmaLayout::KMajor && operand == Operand::A {
            128int
        } else {
            64
        },
{
    let extent = layout.box_dimensions(operand);
    TensorMap {
        element: MapElement::Bf16,
        base,
        width: width as u64,
        height: height as u64,
        row_bytes: (row_stride * 2) as u64,
        box_width: extent[0],
        box_height: extent[1],
    }
}

/// Maps over a row-major `[height, width]` bf16 matrix of `len` elements at
/// `base`.
pub fn create_bf16_tma_map(
    base: u64,
    len: usize,
    width: usize,
    height: usize,
    layout: TmaLayout,
) -> (map: Bf16TmaMap)
    requires
        len == width * height,
        mappable(width as int, height as int, width as int, layout),
    ensures
        map.a == bf16_map(base, width, height, width, layout, Operand::A),
        map.b == bf16_map(base, width, height, width, layout, Operand::B),
        map.a.element == MapElement::Bf16,
        map.a.base == base,
        map.a.width == width,
        map.a.height == height,
        map.a.row_bytes == 2 * width,
        map.a.box_width == 64,
        map.a.box_height == if layout == TmaLayout::KMajor {
            128int
        } else {
            64
        },
        map.b.element == MapElement::Bf16,
        map.b.base == base,
        map.b.width == width,
        map.b.height == height,
        map.b.row_bytes == 2 * width,
        map.b.box_width == 64,
        map.b.box_height == if layout == TmaLayout::KMajor {
            64int
        } else {
            64
        },
{
    Bf16TmaMap {
        a: operand_map(base, width, height, width, layout, Operand::A),
        b: operand_map(base, width, height, width, layout, Operand::B),
    }
}

/// Maps over a row-major `[height, width]` bf16 matrix stored as `len` packed
/// pairs at `base`.
pub fn create_bf16_pairs_tma_map(
    base: u64,
    len: usize,
    width: usize,
    height: usize,
    layout: TmaLayout,
) -> (map: Bf16PairsTmaMap)
    requires
        width % 2 == 0,
        len * 2 == width * height,
        mappable(width as int, height as int, width as int, layout),
    ensures
        map.a == bf16_map(base, width, height, width, layout, Operand::A),
        map.b == bf16_map(base, width, height, width, layout, Operand::B),
        map.a.element == MapElement::Bf16,
        map.a.base == base,
        map.a.width == width,
        map.a.height == height,
        map.a.row_bytes == 2 * width,
        map.a.box_width == 64,
        map.a.box_height == if layout == TmaLayout::KMajor {
            128int
        } else {
            64
        },
        map.b.element == MapElement::Bf16,
        map.b.base == base,
        map.b.width == width,
        map.b.height == height,
        map.b.row_bytes == 2 * width,
        map.b.box_width == 64,
        map.b.box_height == if layout == TmaLayout::KMajor {
            64int
        } else {
            64
        },
{
    Bf16PairsTmaMap {
        a: operand_map(base, width, height, width, layout, Operand::A),
        b: operand_map(base, width, height, width, layout, Operand::B),
    }
}

/// Maps over a prefix of a larger packed-pair buffer of `len` words at `base`.
pub fn create_bf16_pairs_tma_map_prefix(
    base: u64,
    len: usize,
    width: usize,
    height: usize,
    layout: TmaLayout,
) -> (map: Bf16PairsTmaMap)
    requires
        width % 2 == 0,
        len * 2 >= width * height,
        mappable(width as int, height as int, width as int, layout),
    ensures
        map.a == bf16_map(base, width, height, width, layout, Operand::A),
        map.b == bf16_map(base, width, height, width, layout, Operand::B),
        map.a.element == MapElement::Bf16,
        map.a.base == base,
        map.a.width == width,
        map.a.height == height,
        map.a.row_bytes == 2 * width,
        map.a.box_width == 64,
        map.a.box_height == if layout == TmaLayout::KMajor {
            128int
        } else {
            64
        },
        map.b.element == MapElement::Bf16,
        map.b.base == base,
        map.b.width == width,
        map.b.height == height,
        map.b.row_bytes == 2 * width,
        map.b.box_width == 64,
        map.b.box_height == if layout == TmaLayout::KMajor {
            64int
        } else {
            64
        },
{
    Bf16PairsTmaMap {
        a: operand_map(base, width, height, width, layout, Operand::A),
        b: operand_map(base, width, height, width, layout, Operand::B),
    }
}

/// Elements from the first to the last of a strided region.
pub open spec fn region_elements(width: int, height: int, row_stride: int) -> int {
    if height == 0 {
        0
    } else {
        (height - 1) * row_stride + width
    }
}

/// Word past the last of a strided region that starts at `word_offset`, if it
/// fits the machine.
pub fn region_end(word_offset: usize, width: usize, height: usize, row_stride: usize) -> (end: Option<
    usize,
>)
    ensures
        match end {
            Some(word) => {
                &&& word == word_offset + region_elements(
                    width as int,
                    height as int,
                    row_stride as int,
                ) / 2
                &&& region_elements(width as int, height as int, row_stride as int) <= usize::MAX
            },
            None => {
                ||| region_elements(width as int, height as int, row_stride as int) > usize::MAX
                ||| word_offset + region_elements(
                    width as int,
                    height as int,
                    row_stride as int,
                ) / 2 > usize::MAX
            },
        },
        end is Some && height > 0 ==> end->0 == word_offset + ((height - 1) * row_stride + width)
            / 2,
        end is Some && height == 0 ==> end->0 == word_offset,
        end is None <==> height > 0 && ((height - 1) * row_stride + width > usize::MAX || word_offset
            + ((height - 1) * row_stride + width) / 2 > usize::MAX),
{
    if height == 0 {
        return Some(word_offset);
    }
    let elements: usize = match (height - 1).checked_mul(row_stride) {
        Some(prefix) => match prefix.checked_add(width) {
            Some(total) => total,
            None => {
                return None;
            },
        },
        None => {
            return None;
        },
    };
    word_offset.checked_add(elements / 2)
}

/// A rectangular region of packed-pair storage that maps can be made over.
pub open spec fn region_fits(
    base: int,
    len: int,
    word_offset: int,
    width: int,
    height: int,
    row_stride: int,
) -> bool {
    &&& width % 2 == 0
    &&& row_stride % 2 == 0
    &&& width <= row_stride
    &&& region_elements(width, height, row_stride) <= usize::MAX
    &&& word_offset + region_elements(width, height, row_stride) / 2 <= len
    &&& word_offset * 4 <= usize::MAX
    &&& base + word_offset * 4 <= u64::MAX
}

/// Maps over a rectangular region of a packed-pair buffer of `len` words at
/// `base`. `word_offset` locates its first pair and `row_stride` is in elements,
/// so one expert can be addressed inside a stacked buffer.
pub fn create_bf16_pairs_tma_map_region(
    base: u64,
    len: usize,
    word_offset: usize,
    width: usize,
    height: usize,
    row_stride: usize,
    layout: TmaLayout,
) -> (map: Bf16PairsTmaMap)
    requires
        region_fits(
            base as int,
            len as int,
            word_offset as int,
            width as int,
            height as int,
            row_stride as int,
        ),
        mappable(width as int, height as int, row_stride as int, layout),
    ensures
        map.a == bf16_map(
            (base + 4 * word_offset) as u64,
            width,
            height,
            row_stride,
            layout,
            Operand::A,
        ),
        map.b == bf16_map(
            (base + 4 * word_offset) as u64,
            width,
            height,
            row_stride,
            layout,
            Operand::B,
        ),
        map.a.element == MapElement::Bf16,
        map.a.base == base + 4 * word_offset,
        map.a.width == width,
        map.a.height == height,
        map.a.row_bytes == 2 * row_stride,
        map.a.box_width == 64,
        map.a.box_height == if layout == TmaLayout::KMajor {
            128int
        } else {
            64
        },
        map.b.element == MapElement::Bf16,
        map.b.base == base + 4 * word_offset,
        map.b.width == width,
        map.b.height == height,
        map.b.row_bytes == 2 * row_stride,
        map.b.box_width == 64,
        map.b.box_height == if layout == TmaLayout::KMajor {
            64int
        } else {
            64
        },
{
    let first: u64 = base + (word_offset * 4) as u64;
    Bf16PairsTmaMap {
        a: operand_map(first, width, height, row_stride, layout, Operand::A),
        b: operand_map(first, width, height, row_stride, layout, Operand::B),
    }
}

/// Law: a mapped region stays inside its buffer. Every element of it, at any row
/// and column, lies in one of the buffer's words.
pub proof fn law_region_stays_inside(
    base: int,
    len: int,
    word_offset: int,
    width: int,
    height: int,
    row_stride: int,
    row: int,
    column: int,
)
    requires
        region_fits(base, len, word_offset, width, height, row_stride),
        0 <= word_offset,
        0 <= row < height,
        0 <= column < width,
    ensures
        0 <= 2 * word_offset + row_stride * row + column,
        (2 * word_offset + row_stride * row + column) / 2 < len,
{
    lemma_mul_monotone(row, height - 1, row_stride);
    let last = (height - 1) * row_stride;
    assert(row_stride * (height - 1) == last) by (nonlinear_arith)
        requires
            last == (height - 1) * row_stride,
    ;
    assert(last % 2 == 0) by {
        vstd::arithmetic::div_mod::lemma_mul_mod_noop_right(height - 1, row_stride, 2);
    }
}

/// Law: a mapped matrix is a whole number of boxes, over both layouts and for
/// both operands.
pub proof fn law_boxes_tile_the_matrix(
    width: int,
    height: int,
    row_stride: int,
    layout: TmaLayout,
    operand: Operand,
)
    requires
        mappable(width, height, row_stride, layout),
    ensures
        width % 64 == 0,
        height % layout.box_rows(operand) == 0,
{
}

/// Address of the `B` box of a map pair: it follows the `A` box.
pub fn b_operand(map: u64) -> (address: u64)
    requires
        map + TC_MAP_BYTES <= u64::MAX,
    ensures
        address == map + TC_MAP_BYTES,
        address == map + 128,
{
    map + TC_MAP_BYTES as u64
}

/// The map that a reduction store reads an `[m, n]` fp32 output through.
#[derive(Clone, Copy, PartialEq, Eq, Structural, Debug)]
pub struct CMapKey {
    /// Device address of the output's first element.
    pub base: u64,
    pub n: usize,
    pub m: usize,
}

impl CMapKey {
    /// The map of a key: nothing but the key decides it.
    pub open spec fn map(self) -> TensorMap {
        TensorMap {
            element: MapElement::F32,
            base: self.base,
            width: self.n as u64,
            height: self.m as u64,
            row_bytes: (self.n * 4) as u64,
            box_width: 32,
            box_height: 16,
        }
    }

    /// The map to encode for a key: boxes of 16 rows of one swizzle row of fp32.
    pub fn tensor_map(&self) -> (map: TensorMap)
        requires
            self.n % TC_N_TILE == 0,
            self.m % TC_M_TILE == 0,
            self.n * 4 <= usize::MAX,
        ensures
            map == self.map(),
            map.element == MapElement::F32,
            map.base == self.base,
            map.width == self.n,
            map.height == self.m,
            map.row_bytes == 4 * self.n,
            map.box_width == 32,
            map.box_height == 16,
    {
        TensorMap {
            element: MapElement::F32,
            base: self.base,
            width: self.n as u64,
            height: self.m as u64,
            row_bytes: (self.n * 4) as u64,
            box_width: 32,
            box_height: 16,
        }
    }
}

/// Arguments of a launch with a packed-bf16 output.
#[derive(Clone, Copy, PartialEq, Eq, Structural, Debug)]
pub struct Bf16Launch {
    pub n: i32,
    pub k: i32,
    pub tiles_m: u32,
    pub tiles_n: u32,
    /// 0 to overwrite the output, 1 to add to it.
    pub mode: u32,
    pub transposed: u32,
}

/// Arguments of a launch that overwrites an fp32 output.
#[derive(Clone, Copy, PartialEq, Eq, Structural, Debug)]
pub struct F32Launch {
    pub output_offset: usize,
    pub n: i32,
    pub k: i32,
    pub tiles_m: u32,
    pub tiles_n: u32,
    pub transposed: u32,
}

/// Arguments of a launch that adds to an fp32 output.
#[derive(Clone, Copy, PartialEq, Eq, Structural, Debug)]
pub struct F32AccumulateLaunch {
    pub c_map: CMapKey,
    pub k: i32,
    pub tiles_m: u32,
    pub tiles_n: u32,
    pub transposed: u32,
}

/// An fp32 output: its device address and its elements.
#[derive(Clone, Copy, PartialEq, Eq, Structural, Debug)]
pub struct F32Output {
    pub address: u64,
    pub len: usize,
}

/// A region of an fp32 output that a launch may write.
pub open spec fn output_region(output: F32Output, offset: int, elements: int, n: u32) -> bool {
    &&& 0 < n
    &&& offset + elements <= output.len
}

/// A region that a reduction store may add to: its map can be made.
pub open spec fn reducible_region(output: F32Output, offset: int, elements: int, n: u32) -> bool {
    &&& output_region(output, offset, elements, n)
    &&& n % 256 == 0
    &&& (elements / n as int) % 256 == 0
    &&& n * 4 <= usize::MAX
    &&& offset * 4 <= usize::MAX
    &&& output.address + offset * 4 <= u64::MAX
}

/// The launch of a packed-bf16 product.
pub open spec fn bf16_launch(len: usize, n: u32, k: u32, mode: u32, layout: TmaLayout) -> Bf16Launch {
    Bf16Launch {
        n: n as i32,
        k: k as i32,
        tiles_m: ((len * 2) / n as int / 256) as u32,
        tiles_n: (n / 128) as u32,
        mode,
        transposed: if layout == TmaLayout::MnMajor {
            1
        } else {
            0
        },
    }
}

/// The launch of an overwriting fp32 product.
pub open spec fn f32_launch(
    offset: usize,
    elements: usize,
    n: u32,
    k: u32,
    layout: TmaLayout,
) -> F32Launch {
    F32Launch {
        output_offset: offset,
        n: n as i32,
        k: k as i32,
        tiles_m: (elements as int / n as int / 256) as u32,
        tiles_n: (n / 128) as u32,
        transposed: if layout == TmaLayout::MnMajor {
            1
        } else {
            0
        },
    }
}

/// The launch of an adding fp32 product.
pub open spec fn f32_accumulate_launch(
    output: F32Output,
    offset: usize,
    elements: usize,
    n: u32,
    k: u32,
    layout: TmaLayout,
) -> F32AccumulateLaunch {
    F32AccumulateLaunch {
        c_map: CMapKey {
            base: (output.address + offset * 4) as u64,
            n: n as usize,
            m: (elements as int / n as int) as usize,
        },
        k: k as i32,
        tiles_m: (elements as int / n as int / 256) as u32,
        tiles_n: (n / 128) as u32,
        transposed: if layout == TmaLayout::MnMajor {
            1
        } else {
            0
        },
    }
}

/// The `B`-side launch arguments of a packed-bf16 product.
fn launch_tcgen05(len: usize, n: u32, k: u32, mode: u32, layout: TmaLayout) -> (launch: Bf16Launch)
    requires
        0 < n,
        len * 2 <= usize::MAX,
    ensures
        launch == bf16_launch(len, n, k, mode, layout),
        launch.n == n as i32 && launch.k == k as i32,
        launch.tiles_m == ((len * 2) / n as int / 256) as u32,
        launch.tiles_n == n / 128,
        launch.mode == mode,
        launch.transposed == 1 <==> layout == TmaLayout::MnMajor,
        launch.transposed == 0 <==> layout == TmaLayout::KMajor,
{
    let m: usize = len * 2 / (n as usize);
    Bf16Launch {
        n: n as i32,
        k: k as i32,
        tiles_m: (m / TC_M_TILE) as u32,
        tiles_n: ((n as usize) / TC_N_ITEM) as u32,
        mode,
        transposed: layout.transposed_flag(),
    }
}

/// The launch arguments of an overwriting fp32 product.
fn launch_tcgen05_f32(
    output: &F32Output,
    output_offset: usize,
    output_elements: usize,
    n: u32,
    k: u32,
    layout: TmaLayout,
) -> (launch: F32Launch)
    requires
        output_region(*output, output_offset as int, output_elements as int, n),
    ensures
        launch == f32_launch(output_offset, output_elements, n, k, layout),
        launch.n == n as i32 && launch.k == k as i32,
        launch.tiles_m == (output_elements as int / n as int / 256) as u32,
        launch.tiles_n == n / 128,
        launch.output_offset == output_offset,
        launch.transposed == 1 <==> layout == TmaLayout::MnMajor,
        launch.transposed == 0 <==> layout == TmaLayout::KMajor,
{
    let m: usize = output_elements / (n as usize);
    F32Launch {
        output_offset,
        n: n as i32,
        k: k as i32,
        tiles_m: (m / TC_M_TILE) as u32,
        tiles_n: ((n as usize) / TC_N_ITEM) as u32,
        transposed: layout.transposed_flag(),
    }
}

/// What to do about the map of a reduction store.
#[derive(Clone, Copy, PartialEq, Eq, Structural, Debug)]
pub enum CMapStep {
    /// The map in this slot is the one.
    Cached(usize),
    /// Encode this map, then admit its key.
    Encode(TensorMap),
}

/// Launch planner of the tensor-core product. It remembers which reduction maps
/// have been encoded: a map outlives the call that built it, because the launch
/// that reads it is asynchronous.
pub struct Tcgen05Gemm {
    c_maps: Vec<CMapKey>,
}

impl Tcgen05Gemm {
    /// Keys of the encoded maps, in the order of their slots.
    pub closed spec fn keys(self) -> Seq<CMapKey> {
        self.c_maps@
    }

    /// No key has two maps.
    pub open spec fn well_formed(self) -> bool {
        forall|i: int, j: int|
            0 <= i < j < self.keys().len() ==> #[trigger] self.keys()[i] != #[trigger] self.keys()[j]
    }

    /// A planner with no map encoded yet.
    pub fn new() -> (planner: Tcgen05Gemm)
        ensures
            planner.well_formed(),
            planner.keys() == Seq::<CMapKey>::empty(),
    {
        Tcgen05Gemm { c_maps: Vec::new() }
    }

    /// Where the map of a key is, or what to encode for it.
    pub fn reduce_c_map(&self, key: CMapKey) -> (step: CMapStep)
        requires
            self.well_formed(),
            key.n % TC_N_TILE == 0,
            key.m % TC_M_TILE == 0,
            key.n * 4 <= usize::MAX,
        ensures
            match step {
                CMapStep::Cached(slot) => slot < self.keys().len() && self.keys()[slot as int]
                    == key,
                CMapStep::Encode(map) => map == key.map() && !self.keys().contains(key),
            },
            step matches CMapStep::Encode(map) ==> {
                &&& map.element == MapElement::F32 && map.base == key.base
                &&& map.width == key.n && map.height == key.m && map.row_bytes == 4 * key.n
                &&& map.box_width == 32 && map.box_height == 16
            },
            step is Cached <==> self.keys().contains(key),
    {
        for slot in 0..self.c_maps.len()
            invariant
                forall|i: int| 0 <= i < slot ==> #[trigger] self.c_maps@[i] != key,
        {
            if self.c_maps[slot] == key {
                return CMapStep::Cached(slot);
            }
        }
        CMapStep::Encode(key.tensor_map())
    }

    /// Admits a key whose map has been encoded, and gives its slot.
    pub fn admit_c_map(&mut self, key: CMapKey) -> (slot: usize)
        requires
            old(self).well_formed(),
            !old(self).keys().contains(key),
        ensures
            final(self).well_formed(),
            final(self).keys() == old(self).keys().push(key),
            slot == old(self).keys().len(),
    {
        let slot: usize = self.c_maps.len();
        self.c_maps.push(key);
        slot
    }

    /// Law: a slot, once given, stays the slot of its key, and a second request
    /// for a key finds the first one's map.
    pub proof fn law_cached_maps_are_stable(
        before: Tcgen05Gemm,
        after: Tcgen05Gemm,
        key: CMapKey,
        other: CMapKey,
        slot: int,
    )
        requires
            before.well_formed(),
            after.well_formed(),
            after.keys() == before.keys().push(key),
            0 <= slot < before.keys().len(),
            before.keys()[slot] == other,
        ensures
            after.keys()[slot] == other,
            after.keys()[before.keys().len() as int] == key,
            forall|found: int|
                0 <= found < after.keys().len() && #[trigger] after.keys()[found] == other ==> found
                    == slot,
    {
        let keys = after.keys();
        assert(keys[slot] == other);
        assert forall|found: int|
            0 <= found < keys.len() && #[trigger] keys[found] == other implies found == slot by {
            if found < slot {
                assert(keys[found] != keys[slot]);
            } else if slot < found {
                assert(keys[slot] != keys[found]);
            }
        }
    }

    /// `C = A B^T`, packed bf16, into `len` words.
    pub fn store(&self, len: usize, n: u32, k: u32) -> (launch: Bf16Launch)
        requires
            0 < n,
            len * 2 <= usize::MAX,
        ensures
            launch == bf16_launch(len, n, k, 0, TmaLayout::KMajor),
            launch.n == n as i32 && launch.k == k as i32,
            launch.tiles_m == ((len * 2) / n as int / 256) as u32,
            launch.tiles_n == n / 128,
            n <= i32::MAX ==> launch.n == n,
            k <= i32::MAX ==> launch.k == k,
            launch.mode == 0,
            launch.transposed == 0,
    {
        launch_tcgen05(len, n, k, 0, TmaLayout::KMajor)
    }

    /// `C += A B^T`, packed bf16, into `len` words.
    pub fn accumulate(&self, len: usize, n: u32, k: u32) -> (launch: Bf16Launch)
        requires
            0 < n,
            len * 2 <= usize::MAX,
        ensures
            launch == bf16_launch(len, n, k, 1, TmaLayout::KMajor),
            launch.n == n as i32 && launch.k == k as i32,
            launch.tiles_m == ((len * 2) / n as int / 256) as u32,
            launch.tiles_n == n / 128,
            n <= i32::MAX ==> launch.n == n,
            k <= i32::MAX ==> launch.k == k,
            launch.mode == 1,
            launch.transposed == 0,
    {
        launch_tcgen05(len, n, k, 1, TmaLayout::KMajor)
    }

    /// `C += A^T B`, packed bf16, both operands read from their native panels.
    pub fn accumulate_transposed(&self, len: usize, n: u32, k: u32) -> (launch: Bf16Launch)
        requires
            0 < n,
            len * 2 <= usize::MAX,
        ensures
            launch == bf16_launch(len, n, k, 1, TmaLayout::MnMajor),
            launch.n == n as i32 && launch.k == k as i32,
            launch.tiles_m == ((len * 2) / n as int / 256) as u32,
            launch.tiles_n == n / 128,
            n <= i32::MAX ==> launch.n == n,
            k <= i32::MAX ==> launch.k == k,
            launch.mode == 1,
            launch.transposed == 1,
    {
        launch_tcgen05(len, n, k, 1, TmaLayout::MnMajor)
    }

    /// `C = A B^T`, fp32, over a whole output.
    pub fn f32_store(&self, output: &F32Output, n: u32, k: u32) -> (launch: F32Launch)
        requires
            0 < n,
        ensures
            launch == f32_launch(0, output.len, n, k, TmaLayout::KMajor),
            launch.n == n as i32 && launch.k == k as i32,
            launch.tiles_m == (output.len as int / n as int / 256) as u32,
            launch.tiles_n == n / 128,
            n <= i32::MAX ==> launch.n == n,
            k <= i32::MAX ==> launch.k == k,
            launch.output_offset == 0,
            launch.transposed == 0,
    {
        launch_tcgen05_f32(output, 0, output.len, n, k, TmaLayout::KMajor)
    }

    /// `C = A B^T`, fp32, over one matrix of a stacked output.
    pub fn f32_store_at(
        &self,
        output: &F32Output,
        output_offset: usize,
        output_elements: usize,
        n: u32,
        k: u32,
    ) -> (launch: F32Launch)
        requires
            output_region(*output, output_offset as int, output_elements as int, n),
        ensures
            launch == f32_launch(output_offset, output_elements, n, k, TmaLayout::KMajor),
            launch.n == n as i32 && launch.k == k as i32,
            launch.tiles_m == (output_elements as int / n as int / 256) as u32,
            launch.tiles_n == n / 128,
            n <= i32::MAX ==> launch.n == n,
            k <= i32::MAX ==> launch.k == k,
            launch.output_offset == output_offset,
            launch.transposed == 0,
    {
        launch_tcgen05_f32(output, output_offset, output_elements, n, k, TmaLayout::KMajor)
    }

    /// `C = A^T B`, fp32, both operands read from their native panels.
    pub fn f32_store_transposed(&self, output: &F32Output, n: u32, k: u32) -> (launch: F32Launch)
        requires
            0 < n,
        ensures
            launch == f32_launch(0, output.len, n, k, TmaLayout::MnMajor),
            launch.n == n as i32 && launch.k == k as i32,
            launch.tiles_m == (output.len as int / n as int / 256) as u32,
            launch.tiles_n == n / 128,
            n <= i32::MAX ==> launch.n == n,
            k <= i32::MAX ==> launch.k == k,
            launch.output_offset == 0,
            launch.transposed == 1,
    {
        launch_tcgen05_f32(output, 0, output.len, n, k, TmaLayout::MnMajor)
    }

    /// The launch that every adding fp32 form comes down to.
    fn launch_f32_accumulate(
        &self,
        output: &F32Output,
        output_offset: usize,
        output_elements: usize,
        n: u32,
        k: u32,
        layout: TmaLayout,
    ) -> (launch: F32AccumulateLaunch)
        requires
            reducible_region(*output, output_offset as int, output_elements as int, n),
        ensures
            launch == f32_accumulate_launch(
                *output,
                output_offset,
                output_elements,
                n,
                k,
                layout,
            ),
            launch.k == k as i32,
            launch.c_map.m == output_elements as int / n as int,
            launch.tiles_m == (output_elements as int / n as int / 256) as u32,
            launch.tiles_n == n / 128,
            launch.c_map.n == n,
            launch.c_map.base == output.address + 4 * output_offset,
            launch.transposed == 1 <==> layout == TmaLayout::MnMajor,
            launch.transposed == 0 <==> layout == TmaLayout::KMajor,
    {
        let m: usize = output_elements / (n as usize);
        let base: u64 = output.address + (output_offset * 4) as u64;
        F32AccumulateLaunch {
            c_map: CMapKey { base, n: n as usize, m },
            k: k as i32,
            tiles_m: (m / TC_M_TILE) as u32,
            tiles_n: ((n as usize) / TC_N_ITEM) as u32,
            transposed: layout.transposed_flag(),
        }
    }

    /// `C += A B^T`, fp32, over a whole output.
    pub fn f32_accumulate(&self, output: &F32Output, n: u32, k: u32) -> (launch: F32AccumulateLaunch)
        requires
            reducible_region(*output, 0, output.len as int, n),
        ensures
            launch == f32_accumulate_launch(*output, 0, output.len, n, k, TmaLayout::KMajor),
            launch.k == k as i32,
            launch.c_map.m == output.len as int / n as int,
            launch.tiles_m == (output.len as int / n as int / 256) as u32,
            launch.tiles_n == n / 128,
            k <= i32::MAX ==> launch.k == k,
            launch.c_map.n == n,
            launch.c_map.base == output.address,
            launch.transposed == 0,
    {
        self.launch_f32_accumulate(output, 0, output.len, n, k, TmaLayout::KMajor)
    }

    /// `C += A B^T`, fp32, over one matrix of a stacked output.
    pub fn f32_accumulate_at(
        &self,
        output: &F32Output,
        output_offset: usize,
        output_elements: usize,
        n: u32,
        k: u32,
    ) -> (launch: F32AccumulateLaunch)
        requires
            reducible_region(*output, output_offset as int, output_elements as int, n),
        ensures
            launch == f32_accumulate_launch(
                *output,
                output_offset,
                output_elements,
                n,
                k,
                TmaLayout::KMajor,
            ),
            launch.k == k as i32,
            launch.c_map.m == output_elements as int / n as int,
            launch.tiles_m == (output_elements as int / n as int / 256) as u32,
            launch.tiles_n == n / 128,
            k <= i32::MAX ==> launch.k == k,
            launch.c_map.n == n,
            launch.c_map.base == output.address + 4 * output_offset,
            launch.transposed == 0,
    {
        self.launch_f32_accumulate(output, output_offset, output_elements, n, k, TmaLayout::KMajor)
    }

    /// `C += A^T B`, fp32, over one matrix of a stacked output.
    pub fn f32_accumulate_transposed_at(
        &self,
        output: &F32Output,
        output_offset: usize,
        output_elements: usize,
        n: u32,
        k: u32,
    ) -> (launch: F32AccumulateLaunch)
        requires
            reducible_region(*output, output_offset as int, output_elements as int, n),
        ensures
            launch == f32_accumulate_launch(
                *output,
                output_offset,
                output_elements,
                n,
                k,
                TmaLayout::MnMajor,
            ),
            launch.k == k as i32,
            launch.c_map.m == output_elements as int / n as int,
            launch.tiles_m == (output_elements as int / n as int / 256) as u32,
            launch.tiles_n == n / 128,
            k <= i32::MAX ==> launch.k == k,
            launch.c_map.n == n,
            launch.c_map.base == output.address + 4 * output_offset,
            launch.transposed == 1,
    {
        self.launch_f32_accumulate(output, output_offset, output_elements, n, k, TmaLayout::MnMajor)
    }

    /// `C += A^T B`, fp32, over a whole output.
    pub fn f32_accumulate_transposed(&self, output: &F32Output, n: u32, k: u32) -> (launch:
        F32AccumulateLaunch)
        requires
            reducible_region(*output, 0, output.len as int, n),
        ensures
            launch == f32_accumulate_launch(*output, 0, output.len, n, k, TmaLayout::MnMajor),
            launch.k == k as i32,
            launch.c_map.m == output.len as int / n as int,
            launch.tiles_m == (output.len as int / n as int / 256) as u32,
            launch.tiles_n == n / 128,
            k <= i32::MAX ==> launch.k == k,
            launch.c_map.n == n,
            launch.c_map.base == output.address,
            launch.transposed == 1,
    {
        self.f32_accumulate_transposed_at(output, 0, output.len, n, k)
    }
}

/// Law: a launch's tile counts are its work items. Over a region that holds
/// exactly one `[m, n]` matrix of whole tiles, `tiles_m * tiles_n` items of 256
/// rows and 128 columns cover it: of packed words, and of fp32 elements wherever
/// the region lies in its output, stored or added to. The reduction map of an
/// adding launch is over that matrix.
pub proof fn law_tiles_cover_the_output(
    output: F32Output,
    offset: usize,
    elements: usize,
    len: usize,
    m: int,
    n: u32,
    k: u32,
    mode: u32,
    layout: TmaLayout,
)
    requires
        0 <= m <= u32::MAX,
        m % 256 == 0,
        n % 256 == 0,
        0 < n,
        elements == m * n,
        len * 2 == m * n,
    ensures
        ({
            let packed = bf16_launch(len, n, k, mode, layout);
            &&& packed.tiles_m * 256 == m
            &&& packed.tiles_n * 128 == n
            &&& packed.tiles_m * packed.tiles_n == work_items(m, n as int)
        }),
        ({
            let stored = f32_launch(offset, elements, n, k, layout);
            &&& stored.output_offset == offset
            &&& stored.tiles_m * 256 == m
            &&& stored.tiles_n * 128 == n
            &&& stored.tiles_m * stored.tiles_n == work_items(m, n as int)
        }),
        ({
            let added = f32_accumulate_launch(output, offset, elements, n, k, layout);
            &&& added.c_map.m == m
            &&& added.c_map.n == n
            &&& added.tiles_m * 256 == m
            &&& added.tiles_n * 128 == n
            &&& added.tiles_m * added.tiles_n == work_items(m, n as int)
        }),
{
    assert(m <= m * n) by (nonlinear_arith)
        requires
            0 <= m,
            1 <= n,
    ;
    lemma_rows(m, n as int, elements as int);
    lemma_rows(m, n as int, len * 2);
    let packed = bf16_launch(len, n, k, mode, layout);
    lemma_whole_tiles(m, n, packed.tiles_m, packed.tiles_n);
    let stored = f32_launch(offset, elements, n, k, layout);
    lemma_whole_tiles(m, n, stored.tiles_m, stored.tiles_n);
    let added = f32_accumulate_launch(output, offset, elements, n, k, layout);
    lemma_whole_tiles(m, n, added.tiles_m, added.tiles_n);
}

proof fn lemma_whole_tiles(m: int, n: u32, tiles_m: u32, tiles_n: u32)
    requires
        0 <= m <= u32::MAX,
        m % 256 == 0,
        n % 256 == 0,
        tiles_m == (m / 256) as u32,
        tiles_n == (n / 128) as u32,
    ensures
        tiles_m * 256 == m,
        tiles_n * 128 == n,
        tiles_m * tiles_n == work_items(m, n as int),
{
    assert(tiles_m as int == m / 256);
    assert(tiles_n as int == n as int / 128);
}

proof fn lemma_rows(rows: int, columns: int, elements: int)
    requires
        0 < columns,
        elements == rows * columns,
    ensures
        elements / columns == rows,
{
    assert(rows * columns == columns * rows) by (nonlinear_arith);
    crate::arith::lemma_split(elements, columns, rows, 0);
}

/// What the tensor-core kernels are pinned to.
pub fn kernel_budgets() -> (budgets: Vec<KernelBudget>)
    ensures
        budgets@.len() == 3,
        budgets@[0].name@ == "gemm_tcgen05_bf16_optimized"@,
        budgets@[0].max_registers == 133,
        budgets@[0].max_spill_bytes == 0,
        budgets@[1].name@ == "gemm_tcgen05_f32_optimized"@,
        budgets@[1].max_registers == 109,
        budgets@[1].max_spill_bytes == 0,
        budgets@[2].name@ == "gemm_tcgen05_f32_accumulate"@,
        budgets@[2].max_registers == 128,
        budgets@[2].max_spill_bytes == 0,
{
    let mut budgets: Vec<KernelBudget> = Vec::new();
    budgets.push(
        KernelBudget {
            name: "gemm_tcgen05_bf16_optimized",
            max_registers: 133,
            max_spill_bytes: 0,
        },
    );
    budgets.push(
        KernelBudget {
            name: "gemm_tcgen05_f32_optimized",
            max_registers: 109,
            max_spill_bytes: 0,
        },
    );
    budgets.push(
        KernelBudget {
            name: "gemm_tcgen05_f32_accumulate",
            max_registers: 128,
            max_spill_bytes: 0,
        },
    );
    budgets
}

/// Law: a map addresses its matrix's own elements, whatever the layout and the
/// side it is read for. The byte that it takes for a row and a column is that of
/// element `row_stride * row + column`, and a box is one 128-byte row of bf16
/// wide.
pub proof fn law_a_map_addresses_its_matrix(
    base: u64,
    width: usize,
    height: usize,
    row_stride: usize,
    layout: TmaLayout,
    operand: Operand,
    row: int,
    column: int,
)
    requires
        mappable(width as int, height as int, row_stride as int, layout),
        0 <= row < height,
        0 <= column < width,
    ensures
        ({
            let map = bf16_map(base, width, height, row_stride, layout, operand);
            &&& map.element == MapElement::Bf16
            &&& map.base + map.row_bytes * row + 2 * column == base + 2 * (row_stride * row + column)
            &&& map.width == width
            &&& map.height == height
            &&& map.box_width * 2 == 128
        }),
{
    let map = bf16_map(base, width, height, row_stride, layout, operand);
    assert(map.row_bytes == 2 * row_stride);
    assert((2 * row_stride) * row == 2 * (row_stride * row)) by (nonlinear_arith);
}

/// Law: a box holds what one rank stages of an operand. Read with the depth along
/// its rows it is 64 depths of the rank's 128 lines of `A` or 64 of `B`; read
/// with the lines along its rows it is 64 of them at 64 depths, and the rank
/// takes as many boxes as its lines need.
pub proof fn law_a_box_is_what_a_rank_stages(
    base: u64,
    width: usize,
    height: usize,
    row_stride: usize,
    layout: TmaLayout,
)
    ensures
        ({
            let a = bf16_map(base, width, height, row_stride, layout, Operand::A);
            let b = bf16_map(base, width, height, row_stride, layout, Operand::B);
            &&& a.box_width == crate::gemm::narrow::BLOCK_K
            &&& b.box_width == crate::gemm::narrow::BLOCK_K
            &&& layout == TmaLayout::KMajor ==> a.box_height == 128 && b.box_height == 64
            &&& layout == TmaLayout::MnMajor ==> a.box_height == 64 && b.box_height == 64
        }),
{
}

/// Law: the end of a region is tight. Its last element, at the last row and
/// column, lies in the last word before the end, and there is none after it.
pub proof fn law_a_region_ends_with_its_last_element(width: int, height: int, row_stride: int)
    requires
        0 < height,
        0 < width <= row_stride,
        width % 2 == 0,
        row_stride % 2 == 0,
    ensures
        (row_stride * (height - 1) + width - 1) / 2 == region_elements(width, height, row_stride) / 2
            - 1,
        region_elements(width, 0, row_stride) == 0,
{
    let last = (height - 1) * row_stride;
    assert(row_stride * (height - 1) == last) by (nonlinear_arith)
        requires
            last == (height - 1) * row_stride,
    ;
    assert(last % 2 == 0) by {
        vstd::arithmetic::div_mod::lemma_mul_mod_noop_right(height - 1, row_stride, 2);
    }
}

/// Law: a reduction map addresses its output's own elements, and cuts it into
/// boxes of 16 rows of one 128-byte row of fp32. Every element is in exactly one
/// box, and a pass of the reducing drain is two of them side by side: the place
/// `(row, column)` of a band is in pass `pass` exactly where it is in the box at
/// the pass's corner or in the one after it.
pub proof fn law_a_reduce_pass_is_two_boxes(key: CMapKey, pass: int, row: int, column: int)
    requires
        key.n % 256 == 0,
        key.m % 256 == 0,
        key.n * 4 <= usize::MAX,
        0 <= pass < 4,
    ensures
        ({
            let map = key.map();
            let top = 16 * (pass / 2);
            let left = 64 * (pass % 2);
            &&& map.element == MapElement::F32
            &&& map.box_width * 4 == 128
            &&& map.width == key.n && map.height == key.m
            &&& map.box_width == 32 && key.n % 32 == 0
            &&& map.box_height == 16 && key.m % 16 == 0
            &&& map.base + map.row_bytes * row + 4 * column == key.base + 4 * (key.n * row + column)
            &&& crate::gemm::narrow::in_pass(pass, row, column) <==> top <= row < top
                + map.box_height && (left <= column < left + map.box_width || left + map.box_width
                <= column < left + 2 * map.box_width)
        }),
{
    let map = key.map();
    assert(map.row_bytes == 4 * key.n);
    assert((4 * key.n) * row == 4 * (key.n * row)) by (nonlinear_arith);
}

/// Law: every launch hands its kernel the caller's own extents and way of reading.
/// Its `n` and `k` are the caller's, so `k / 64` stages meet every depth of the
/// reduction; a launch over a region starts at the region; and the operands are
/// read transposed exactly where they are stored so.
pub proof fn law_a_launch_hands_on_its_extents(
    output: F32Output,
    offset: usize,
    elements: usize,
    len: usize,
    n: u32,
    k: u32,
    mode: u32,
    layout: TmaLayout,
    depth: int,
)
    requires
        0 < n <= i32::MAX,
        k <= i32::MAX,
        k % 64 == 0,
        output.address + 4 * offset <= u64::MAX,
        0 <= depth < k,
    ensures
        ({
            let packed = bf16_launch(len, n, k, mode, layout);
            &&& packed.n == n
            &&& packed.k == k
            &&& depth / 64 < packed.k as int / 64
            &&& packed.mode == mode
            &&& packed.transposed == 1 <==> layout == TmaLayout::MnMajor
            &&& packed.transposed == 0 <==> layout == TmaLayout::KMajor
        }),
        ({
            let stored = f32_launch(offset, elements, n, k, layout);
            &&& stored.output_offset == offset
            &&& stored.n == n
            &&& stored.k == k
            &&& depth / 64 < stored.k as int / 64
            &&& stored.transposed == 1 <==> layout == TmaLayout::MnMajor
            &&& stored.transposed == 0 <==> layout == TmaLayout::KMajor
        }),
        ({
            let added = f32_accumulate_launch(output, offset, elements, n, k, layout);
            &&& added.c_map.base == output.address + 4 * offset
            &&& added.c_map.n == n
            &&& added.k == k
            &&& depth / 64 < added.k as int / 64
            &&& added.transposed == 1 <==> layout == TmaLayout::MnMajor
            &&& added.transposed == 0 <==> layout == TmaLayout::KMajor
        }),
{
}

/// Law: an operand's map is over the operand's own bytes either way: its width and
/// height are the lines and the depth, with the one that is contiguous as the
/// width.
pub proof fn law_the_contiguous_axis_is_the_width(layout: TmaLayout, lines: int, depth: int)
    ensures
        layout == TmaLayout::KMajor ==> layout.extent_of(lines, depth) == (depth, lines),
        layout == TmaLayout::MnMajor ==> layout.extent_of(lines, depth) == (lines, depth),
{
}

} // verus!
