//! The products of the training step, at their exact shapes and modes, and
//! whether a kernel's result agrees with a library's.

use crate::bf16::{bf16_from_quarters, bf16_of_quarters, bf16_to_f32, unpack_pair};
use crate::float_order::{exceeds, f32_exceeds, same_value};
use crate::gemm::cublaslt::{kernel_a, kernel_b, Form, OutElement};
use crate::gemm::host::{bf16_map, create_bf16_tma_map, mappable, Bf16TmaMap, Operand, TmaLayout};
use crate::tally::{law_picked_are_the_places_in_order, lemma_picked_len, picked};
use vstd::prelude::*;

verus! {

/// Largest `C` of a model shape that is compared element by element.
pub const MODEL_VERIFY_ELEMENTS: usize = 160000000;

/// Largest `C` of a square product that is compared element by element.
pub const SQUARE_VERIFY_ELEMENTS: usize = 16777216;

/// fp32 pattern of 1/32, the error that an fp32 `C` may have.
pub const F32_TOLERANCE: u32 = 0x3d00_0000;

/// fp32 pattern of 4/256, the error that a deep bf16 `C` may have.
pub const BF16_TOLERANCE: u32 = 0x3c80_0000;

/// fp32 pattern of 2/256: two units in the last place of a bf16.
pub const SQUARE_TOLERANCE: u32 = 0x3c00_0000;

/// Number of products in the training step.
pub const CASES: usize = 14;

/// The kernel mode of a product, by output element and fold.
#[derive(Clone, Copy, PartialEq, Eq, Structural, Debug)]
pub enum Mode {
    /// fp32 `C` overwritten, depth-major operands.
    F32Store,
    /// fp32 `C += A^T B` over `[k, m]` and `[k, n]` panels.
    F32AccumulateT,
    /// bf16 `C` overwritten, depth-major operands.
    Bf16Store,
    /// bf16 `C += A^T B` over `[k, m]` and `[k, n]` panels.
    Bf16AccumulateT,
}

impl Mode {
    pub open spec fn is_transposed(self) -> bool {
        self is F32AccumulateT || self is Bf16AccumulateT
    }

    /// Whether the operands are read transposed.
    pub fn transposed(self) -> (transposed: bool)
        ensures
            transposed == self.is_transposed(),
            transposed == (self == Mode::F32AccumulateT || self == Mode::Bf16AccumulateT),
    {
        matches!(self, Mode::F32AccumulateT | Mode::Bf16AccumulateT)
    }

    /// How the operands of the mode lie in memory.
    pub open spec fn layout_of(self) -> TmaLayout {
        if self.is_transposed() {
            TmaLayout::MnMajor
        } else {
            TmaLayout::KMajor
        }
    }

    /// How the operands of the mode lie in memory.
    pub fn layout(self) -> (layout: TmaLayout)
        ensures
            layout == self.layout_of(),
            layout == TmaLayout::KMajor <==> self == Mode::F32Store || self == Mode::Bf16Store,
            layout == TmaLayout::MnMajor <==> self == Mode::F32AccumulateT || self
                == Mode::Bf16AccumulateT,
    {
        if self.transposed() {
            TmaLayout::MnMajor
        } else {
            TmaLayout::KMajor
        }
    }

    /// The mode's name in a report.
    pub fn label(self) -> (label: &'static str)
        ensures
            label@ == (match self {
                Mode::F32Store => "f32 store"@,
                Mode::F32AccumulateT => "f32 acc-T"@,
                Mode::Bf16Store => "bf16 store"@,
                Mode::Bf16AccumulateT => "bf16 acc-T"@,
            }),
    {
        match self {
            Mode::F32Store => "f32 store",
            Mode::F32AccumulateT => "f32 acc-T",
            Mode::Bf16Store => "bf16 store",
            Mode::Bf16AccumulateT => "bf16 acc-T",
        }
    }
}

/// A product `C[m, n] = A[m, k] B[k, n]`.
#[derive(Clone, Copy, Debug)]
pub struct Case {
    pub name: &'static str,
    pub m: usize,
    pub k: usize,
    pub n: usize,
    pub mode: Mode,
}

/// A named product.
pub fn case(name: &'static str, m: usize, k: usize, n: usize, mode: Mode) -> (case: Case)
    ensures
        case.name@ == name@,
        case.m == m,
        case.k == k,
        case.n == n,
        case.mode == mode,
{
    Case { name, m, k, n, mode }
}

/// Name, `m`, `k`, `n` and mode of each product of the training step.
pub open spec fn model_case_of(index: int) -> (Seq<char>, int, int, int, Mode) {
    if index == 0 {
        ("qkv fwd"@, 24576, 3072, 9216, Mode::F32Store)
    } else if index == 1 {
        ("o_proj fwd"@, 24576, 3072, 3072, Mode::F32Store)
    } else if index == 2 {
        ("gate_up fwd /expert"@, 6144, 3072, 8192, Mode::F32Store)
    } else if index == 3 {
        ("down fwd /expert"@, 6144, 4096, 3072, Mode::F32Store)
    } else if index == 4 {
        ("bwd qkv dx"@, 24576, 9216, 3072, Mode::F32Store)
    } else if index == 5 {
        ("bwd gate_up dx /expert"@, 6144, 8192, 3072, Mode::F32Store)
    } else if index == 6 {
        ("bwd down dx /expert"@, 6144, 3072, 4096, Mode::F32Store)
    } else if index == 7 {
        ("bwd qkv dW"@, 3072, 24576, 9216, Mode::F32AccumulateT)
    } else if index == 8 {
        ("bwd o_proj dW"@, 3072, 24576, 3072, Mode::F32AccumulateT)
    } else if index == 9 {
        ("bwd gate_up dW /expert"@, 3072, 6144, 8192, Mode::F32AccumulateT)
    } else if index == 10 {
        ("bwd down dW /expert"@, 4096, 6144, 3072, Mode::F32AccumulateT)
    } else if index == 11 {
        ("lm_head fwd"@, 24576, 3072, 50432, Mode::Bf16Store)
    } else if index == 12 {
        ("bwd lm_head dx"@, 24576, 50432, 3072, Mode::Bf16Store)
    } else {
        ("bwd lm_head dW"@, 3072, 24576, 50432, Mode::Bf16AccumulateT)
    }
}

/// One product of the training step.
pub fn model_case(index: usize) -> (found: Case)
    requires
        index < CASES,
    ensures
        (found.name@, found.m as int, found.k as int, found.n as int, found.mode) == model_case_of(
            index as int,
        ),
        index == 0 ==> {
            &&& found.name@ == "qkv fwd"@
            &&& (found.m, found.k, found.n) == (24576usize, 3072usize, 9216usize)
            &&& found.mode == Mode::F32Store
        },
        index == 1 ==> {
            &&& found.name@ == "o_proj fwd"@
            &&& (found.m, found.k, found.n) == (24576usize, 3072usize, 3072usize)
            &&& found.mode == Mode::F32Store
        },
        index == 2 ==> {
            &&& found.name@ == "gate_up fwd /expert"@
            &&& (found.m, found.k, found.n) == (6144usize, 3072usize, 8192usize)
            &&& found.mode == Mode::F32Store
        },
        index == 3 ==> {
            &&& found.name@ == "down fwd /expert"@
            &&& (found.m, found.k, found.n) == (6144usize, 4096usize, 3072usize)
            &&& found.mode == Mode::F32Store
        },
        index == 4 ==> {
            &&& found.name@ == "bwd qkv dx"@
            &&& (found.m, found.k, found.n) == (24576usize, 9216usize, 3072usize)
            &&& found.mode == Mode::F32Store
        },
        index == 5 ==> {
            &&& found.name@ == "bwd gate_up dx /expert"@
            &&& (found.m, found.k, found.n) == (6144usize, 8192usize, 3072usize)
            &&& found.mode == Mode::F32Store
        },
        index == 6 ==> {
            &&& found.name@ == "bwd down dx /expert"@
            &&& (found.m, found.k, found.n) == (6144usize, 3072usize, 4096usize)
            &&& found.mode == Mode::F32Store
        },
        index == 7 ==> {
            &&& found.name@ == "bwd qkv dW"@
            &&& (found.m, found.k, found.n) == (3072usize, 24576usize, 9216usize)
            &&& found.mode == Mode::F32AccumulateT
        },
        index == 8 ==> {
            &&& found.name@ == "bwd o_proj dW"@
            &&& (found.m, found.k, found.n) == (3072usize, 24576usize, 3072usize)
            &&& found.mode == Mode::F32AccumulateT
        },
        index == 9 ==> {
            &&& found.name@ == "bwd gate_up dW /expert"@
            &&& (found.m, found.k, found.n) == (3072usize, 6144usize, 8192usize)
            &&& found.mode == Mode::F32AccumulateT
        },
        index == 10 ==> {
            &&& found.name@ == "bwd down dW /expert"@
            &&& (found.m, found.k, found.n) == (4096usize, 6144usize, 3072usize)
            &&& found.mode == Mode::F32AccumulateT
        },
        index == 11 ==> {
            &&& found.name@ == "lm_head fwd"@
            &&& (found.m, found.k, found.n) == (24576usize, 3072usize, 50432usize)
            &&& found.mode == Mode::Bf16Store
        },
        index == 12 ==> {
            &&& found.name@ == "bwd lm_head dx"@
            &&& (found.m, found.k, found.n) == (24576usize, 50432usize, 3072usize)
            &&& found.mode == Mode::Bf16Store
        },
        index == 13 ==> {
            &&& found.name@ == "bwd lm_head dW"@
            &&& (found.m, found.k, found.n) == (3072usize, 24576usize, 50432usize)
            &&& found.mode == Mode::Bf16AccumulateT
        },
{
    match index {
        0 => case("qkv fwd", 24576, 3072, 9216, Mode::F32Store),
        1 => case("o_proj fwd", 24576, 3072, 3072, Mode::F32Store),
        2 => case("gate_up fwd /expert", 6144, 3072, 8192, Mode::F32Store),
        3 => case("down fwd /expert", 6144, 4096, 3072, Mode::F32Store),
        4 => case("bwd qkv dx", 24576, 9216, 3072, Mode::F32Store),
        5 => case("bwd gate_up dx /expert", 6144, 8192, 3072, Mode::F32Store),
        6 => case("bwd down dx /expert", 6144, 3072, 4096, Mode::F32Store),
        7 => case("bwd qkv dW", 3072, 24576, 9216, Mode::F32AccumulateT),
        8 => case("bwd o_proj dW", 3072, 24576, 3072, Mode::F32AccumulateT),
        9 => case("bwd gate_up dW /expert", 3072, 6144, 8192, Mode::F32AccumulateT),
        10 => case("bwd down dW /expert", 4096, 6144, 3072, Mode::F32AccumulateT),
        11 => case("lm_head fwd", 24576, 3072, 50432, Mode::Bf16Store),
        12 => case("bwd lm_head dx", 24576, 50432, 3072, Mode::Bf16Store),
        _ => case("bwd lm_head dW", 3072, 24576, 50432, Mode::Bf16AccumulateT),
    }
}

/// Law: every product of the training step divides into whole tiles, and its
/// operands can be mapped either way round.
pub proof fn law_model_shapes_are_whole_tiles(index: int)
    requires
        0 <= index < CASES,
    ensures
        ({
            let (_, m, k, n, _) = model_case_of(index);
            &&& m % 256 == 0 && n % 256 == 0 && k % 256 == 0
            &&& m > 0 && n > 0 && k > 0
            &&& m * n < 0x8000_0000 && m * k < 0x8000_0000 && n * k < 0x8000_0000
        }),
{
}

impl Case {
    /// Tiles of the product.
    pub fn tiles(&self) -> (tiles: usize)
        requires
            (self.m as int / 256) * (self.n as int / 256) <= usize::MAX,
        ensures
            tiles == (self.m as int / 256) * (self.n as int / 256),
    {
        (self.m / 256) * (self.n / 256)
    }

    /// How the operands lie in memory.
    pub open spec fn layout_of(self) -> TmaLayout {
        self.mode.layout_of()
    }

    pub open spec fn form_of(self) -> Form {
        if self.mode.is_transposed() {
            Form::AccumulateTransposed
        } else {
            Form::Store
        }
    }

    /// Width and height of the map of an operand with `lines` lines.
    pub open spec fn extent_of(self, lines: int) -> (int, int) {
        self.layout_of().extent_of(lines, self.k as int)
    }

    /// The maps of an operand of `lines` lines at `base`: the bytes are the same
    /// in every mode, and the mode says which axis is the width.
    pub fn operand_map(&self, base: u64, lines: usize) -> (map: Bf16TmaMap)
        requires
            lines * self.k <= usize::MAX,
            mappable(
                self.extent_of(lines as int).0,
                self.extent_of(lines as int).1,
                self.extent_of(lines as int).0,
                self.layout_of(),
            ),
        ensures
            ({
                let (width, height) = self.extent_of(lines as int);
                let layout = self.layout_of();
                &&& map.a == bf16_map(
                    base,
                    width as usize,
                    height as usize,
                    width as usize,
                    layout,
                    Operand::A,
                )
                &&& map.b == bf16_map(
                    base,
                    width as usize,
                    height as usize,
                    width as usize,
                    layout,
                    Operand::B,
                )
            }),
            map.a.base == base && map.b.base == base,
            self.mode == Mode::F32Store || self.mode == Mode::Bf16Store ==> {
                &&& map.a.width == self.k && map.a.height == lines && map.a.row_bytes == 2 * self.k
                &&& map.b.width == self.k && map.b.height == lines && map.b.row_bytes == 2 * self.k
            },
            self.mode == Mode::F32AccumulateT || self.mode == Mode::Bf16AccumulateT ==> {
                &&& map.a.width == lines && map.a.height == self.k && map.a.row_bytes == 2 * lines
                &&& map.b.width == lines && map.b.height == self.k && map.b.row_bytes == 2 * lines
            },
    {
        proof {
            assert(lines * self.k == self.k * lines) by (nonlinear_arith);
        }
        let layout: TmaLayout = self.mode.layout();
        let (width, height): (usize, usize) = layout.extent(lines, self.k);
        create_bf16_tma_map(base, lines * self.k, width, height, layout)
    }
}

/// The product that a library is asked for.
pub fn form(case: &Case) -> (form: Form)
    ensures
        form == case.form_of(),
        form == Form::Store <==> case.mode == Mode::F32Store || case.mode == Mode::Bf16Store,
{
    if case.mode.transposed() {
        Form::AccumulateTransposed
    } else {
        Form::Store
    }
}

/// The element of `C` in a case.
pub fn out_element(case: &Case) -> (element: OutElement)
    ensures
        element == (match case.mode {
            Mode::F32Store => OutElement::F32,
            Mode::F32AccumulateT => OutElement::F32,
            Mode::Bf16Store => OutElement::Bf16,
            Mode::Bf16AccumulateT => OutElement::Bf16,
        }),
{
    match case.mode {
        Mode::F32Store | Mode::F32AccumulateT => OutElement::F32,
        Mode::Bf16Store | Mode::Bf16AccumulateT => OutElement::Bf16,
    }
}

/// Law: the library is asked for the product over the very elements that the
/// kernel's maps walk: the factor of a line at a depth has one address under both.
pub proof fn law_form_reads_the_mapped_elements(case: Case, row: int, column: int, depth: int)
    ensures
        case.mode.is_transposed() ==> kernel_a(
            case.m as int,
            case.k as int,
            case.form_of(),
            row,
            depth,
        ) == case.extent_of(case.m as int).0 * depth + row,
        !case.mode.is_transposed() ==> kernel_a(
            case.m as int,
            case.k as int,
            case.form_of(),
            row,
            depth,
        ) == case.extent_of(case.m as int).0 * row + depth,
        case.mode.is_transposed() ==> kernel_b(
            case.n as int,
            case.k as int,
            case.form_of(),
            column,
            depth,
        ) == case.extent_of(case.n as int).0 * depth + column,
        !case.mode.is_transposed() ==> kernel_b(
            case.n as int,
            case.k as int,
            case.form_of(),
            column,
            depth,
        ) == case.extent_of(case.n as int).0 * column + depth,
{
}

/// State of the operand generator before element `element`.
pub open spec fn generator(seed: u64, element: int) -> u64
    decreases element,
{
    if element <= 0 {
        seed.wrapping_mul(6364136223846793005).wrapping_add(1)
    } else {
        generator(seed, element - 1).wrapping_mul(6364136223846793005).wrapping_add(
            1442695040888963407,
        )
    }
}

/// Quarters that the generator draws for an element, from -4 to 4.
pub open spec fn drawn_quarters(seed: u64, element: int) -> int {
    (generator(seed, element + 1) / 0x2_0000_0000) % 9 - 4
}

/// A bf16 operand of multiples of a quarter from -1 to 1, the same on every run.
pub fn operand(elements: usize, seed: u64) -> (drawn: Vec<u16>)
    ensures
        drawn@.len() == elements,
        forall|i: int|
            0 <= i < elements ==> #[trigger] drawn@[i] == bf16_of_quarters(drawn_quarters(seed, i)),
        forall|i: int|
            0 <= i < elements ==> #[trigger] drawn@[i] == bf16_of_quarters(
                (generator(seed, i + 1) as int / 0x2_0000_0000) % 9 - 4,
            ),
{
    let mut state: u64 = seed.wrapping_mul(6364136223846793005).wrapping_add(1);
    let mut drawn: Vec<u16> = Vec::new();
    for i in 0..elements
        invariant
            state == generator(seed, i as int),
            drawn@.len() == i,
            forall|j: int|
                0 <= j < i ==> #[trigger] drawn@[j] == bf16_of_quarters(drawn_quarters(seed, j)),
    {
        state = state.wrapping_mul(6364136223846793005).wrapping_add(1442695040888963407);
        proof {
            assert(state >> 33 == state / 0x2_0000_0000) by (bit_vector);
        }
        let quarters: i8 = ((state >> 33) % 9) as i8 - 4;
        drawn.push(bf16_from_quarters(quarters));
    }
    drawn
}

/// The fp32 pattern of an element of a packed bf16 matrix.
pub fn packed_element(words: &[u32], index: usize) -> (bits: u32)
    requires
        index / 2 < words@.len(),
    ensures
        index % 2 == 0 ==> bits == 65536 * (words@[index as int / 2] as int % 65536),
        index % 2 == 1 ==> bits == 65536 * (words@[index as int / 2] as int / 65536),
{
    let pair = unpack_pair(words[index / 2]);
    if index % 2 == 0 {
        bf16_to_f32(pair.0)
    } else {
        bf16_to_f32(pair.1)
    }
}

/// The first of the largest of the first `count` errors and its place; an error
/// that is not positive is never the largest, and neither is a NaN.
pub open spec fn worst_of(errors: Seq<u32>, count: int) -> (u32, int)
    decreases count,
{
    if count <= 0 {
        (0, 0)
    } else {
        let before = worst_of(errors, count - 1);
        if exceeds(errors[count - 1], before.0) {
            (errors[count - 1], count - 1)
        } else {
            before
        }
    }
}

/// The elements whose error exceeds a tolerance.
pub open spec fn beyond(errors: Seq<u32>, tolerance: u32) -> spec_fn(int) -> bool {
    |i: int| exceeds(errors[i], tolerance)
}

/// Two results differ.
#[derive(Clone, Copy, PartialEq, Eq, Structural, Debug)]
pub struct Disagreement {
    /// Elements whose error is beyond the tolerance.
    pub wrong: usize,
    /// Elements of the product.
    pub elements: usize,
    /// The largest relative error, as an fp32 pattern, and where it is.
    pub error: u32,
    pub row: usize,
    pub column: usize,
}

/// The verdict on a product of `m * n` elements and `n` columns.
pub open spec fn verdict(errors: Seq<u32>, tolerance: u32, m: int, n: int) -> Result<
    (),
    Disagreement,
> {
    let wrong = picked(errors.len() as int, beyond(errors, tolerance)).len();
    let worst = worst_of(errors, errors.len() as int);
    if wrong == 0 {
        Ok(())
    } else {
        Err(
            Disagreement {
                wrong: wrong as usize,
                elements: (m * n) as usize,
                error: worst.0,
                row: (worst.1 / n) as usize,
                column: (worst.1 % n) as usize,
            },
        )
    }
}

/// Weighs the relative errors of a product against a tolerance.
fn weigh(errors: &[u32], tolerance: u32, m: usize, n: usize) -> (outcome: Result<(), Disagreement>)
    requires
        errors@.len() > 0 ==> n > 0,
        m * n <= usize::MAX,
    ensures
        outcome == verdict(errors@, tolerance, m as int, n as int),
{
    let mut error: u32 = 0;
    let mut index: usize = 0;
    let mut wrong: usize = 0;
    for i in 0..errors.len()
        invariant
            worst_of(errors@, i as int) == (error, index as int),
            wrong == picked(i as int, beyond(errors@, tolerance)).len(),
    {
        proof {
            lemma_picked_len(i as int, beyond(errors@, tolerance));
        }
        if f32_exceeds(errors[i], error) {
            error = errors[i];
            index = i;
        }
        if f32_exceeds(errors[i], tolerance) {
            wrong = wrong + 1;
        }
    }
    proof {
        lemma_picked_len(errors@.len() as int, beyond(errors@, tolerance));
    }
    disagreement(wrong, error, index, m, n)
}

/// What is reported of a comparison.
pub fn disagreement(wrong: usize, error: u32, index: usize, m: usize, n: usize) -> (outcome: Result<
    (),
    Disagreement,
>)
    requires
        wrong > 0 ==> n > 0,
        m * n <= usize::MAX,
    ensures
        wrong == 0 ==> outcome == Ok::<(), Disagreement>(()),
        wrong > 0 ==> outcome == Err::<(), Disagreement>(
            Disagreement {
                wrong,
                elements: (m * n) as usize,
                error,
                row: (index as int / n as int) as usize,
                column: (index as int % n as int) as usize,
            },
        ),
{
    if wrong == 0 {
        return Ok(());
    }
    Err(Disagreement { wrong, elements: m * n, error, row: index / n, column: index % n })
}

/// Whether the fp32 results agree but for the order in which they were summed,
/// given the relative error of each element.
pub fn agree_f32(errors: &[u32], case: &Case) -> (outcome: Result<(), Disagreement>)
    requires
        errors@.len() > 0 ==> case.n > 0,
        case.m * case.n <= usize::MAX,
    ensures
        outcome == verdict(errors@, F32_TOLERANCE, case.m as int, case.n as int),
        outcome is Ok <==> forall|i: int|
            0 <= i < errors@.len() ==> !exceeds(#[trigger] errors@[i], 0x3d00_0000),
{
    proof {
        law_agreement_is_no_error_beyond(
            errors@,
            F32_TOLERANCE,
            case.m as int,
            case.n as int,
        );
    }
    weigh(errors, F32_TOLERANCE, case.m, case.n)
}

/// Whether the bf16 results agree, given the relative error of each element: a
/// deep sum in another order can differ by a few units in the last place.
pub fn agree_bf16(errors: &[u32], case: &Case) -> (outcome: Result<(), Disagreement>)
    requires
        errors@.len() > 0 ==> case.n > 0,
        case.m * case.n <= usize::MAX,
    ensures
        outcome == verdict(errors@, BF16_TOLERANCE, case.m as int, case.n as int),
        outcome is Ok <==> forall|i: int|
            0 <= i < errors@.len() ==> !exceeds(#[trigger] errors@[i], 0x3c80_0000),
{
    proof {
        law_agreement_is_no_error_beyond(
            errors@,
            BF16_TOLERANCE,
            case.m as int,
            case.n as int,
        );
    }
    weigh(errors, BF16_TOLERANCE, case.m, case.n)
}

/// Whether the bf16 results of a square product agree, given the relative error
/// of each element.
pub fn agrees(errors: &[u32], m: usize, n: usize) -> (outcome: Result<(), Disagreement>)
    requires
        errors@.len() == m * n,
    ensures
        outcome == verdict(errors@, SQUARE_TOLERANCE, m as int, n as int),
        outcome is Ok <==> forall|i: int|
            0 <= i < errors@.len() ==> !exceeds(#[trigger] errors@[i], 0x3c00_0000),
{
    assert(errors.len() == errors@.len());
    assert(m * n > 0 ==> n > 0) by (nonlinear_arith)
        requires
            0 <= n,
    ;
    proof {
        law_agreement_is_no_error_beyond(errors@, SQUARE_TOLERANCE, m as int, n as int);
    }
    weigh(errors, SQUARE_TOLERANCE, m, n)
}

/// Whether a `C` is small enough to be compared element by element.
pub fn is_verified(m: usize, n: usize, limit: usize) -> (verified: bool)
    requires
        m * n <= usize::MAX,
    ensures
        verified == (m * n <= limit),
{
    m * n <= limit
}

/// Law: two results agree exactly when no error is beyond the tolerance, and
/// where they do not, the reported error is one of them and no number exceeds it.
pub proof fn law_agreement_is_no_error_beyond(errors: Seq<u32>, tolerance: u32, m: int, n: int)
    requires
        tolerance < 0x7f80_0000,
    ensures
        verdict(errors, tolerance, m, n) is Ok <==> forall|i: int|
            0 <= i < errors.len() ==> !exceeds(#[trigger] errors[i], tolerance),
        forall|i: int|
            0 <= i < errors.len() ==> !exceeds(
                #[trigger] errors[i],
                worst_of(errors, errors.len() as int).0,
            ),
        verdict(errors, tolerance, m, n) is Err ==> ({
            let worst = worst_of(errors, errors.len() as int);
            &&& 0 <= worst.1 < errors.len()
            &&& errors[worst.1] == worst.0
            &&& exceeds(worst.0, tolerance)
        }),
{
    let count = errors.len() as int;
    crate::tally::law_nothing_picked_means_nothing_wrong(count, beyond(errors, tolerance));
    lemma_worst(errors, count);
    let pick = beyond(errors, tolerance);
    if forall|i: int| 0 <= i < count ==> !exceeds(#[trigger] errors[i], tolerance) {
        assert forall|i: int| 0 <= i < count implies !#[trigger] pick(i) by {}
    }
    if exists|i: int| 0 <= i < count && exceeds(#[trigger] errors[i], tolerance) {
        let i = choose|i: int| 0 <= i < count && exceeds(#[trigger] errors[i], tolerance);
        assert(pick(i));
        assert(!exceeds(errors[i], worst_of(errors, count).0));
    } else {
        assert forall|i: int| 0 <= i < count implies !exceeds(#[trigger] errors[i], tolerance) by {}
    }
}

proof fn lemma_worst(errors: Seq<u32>, count: int)
    requires
        0 <= count <= errors.len(),
    ensures
        !crate::float_order::is_nan(worst_of(errors, count).0),
        forall|i: int|
            0 <= i < count ==> !exceeds(#[trigger] errors[i], worst_of(errors, count).0),
        worst_of(errors, count) != (0u32, 0int) ==> ({
            let worst = worst_of(errors, count);
            0 <= worst.1 < count && errors[worst.1] == worst.0
        }),
        worst_of(errors, count) != (0u32, 0int) ==> exceeds(worst_of(errors, count).0, 0),
        worst_of(errors, count).0 == 0 ==> worst_of(errors, count).1 == 0,
        forall|i: int|
            0 <= i < worst_of(errors, count).1 ==> !same_value(
                #[trigger] errors[i],
                worst_of(errors, count).0,
            ),
    decreases count,
{
    if count > 0 {
        lemma_worst(errors, count - 1);
    }
}

/// The first element at which two results differ in any bit.
pub fn first_difference(a: &[u32], b: &[u32], count: usize) -> (place: Option<usize>)
    requires
        count <= a@.len(),
        count <= b@.len(),
    ensures
        match place {
            Some(at) => at < count && a@[at as int] != b@[at as int] && forall|i: int|
                0 <= i < at ==> #[trigger] a@[i] == b@[i],
            None => forall|i: int| 0 <= i < count ==> #[trigger] a@[i] == b@[i],
        },
{
    for i in 0..count
        invariant
            count <= a@.len(),
            count <= b@.len(),
            forall|j: int| 0 <= j < i ==> #[trigger] a@[j] == b@[j],
    {
        if a[i] != b[i] {
            return Some(i);
        }
    }
    None
}

/// Law: the products of the backward pass are those of the forward one with their
/// axes turned: of a forward product over `(m, k, n)` the gradient of its input is
/// a storing product over `(m, n, k)`, and that of its weight an accumulating one
/// over `(k, m, n)`.
pub proof fn law_backward_products_turn_the_forward_ones(
    forward: int,
    input: Option<int>,
    weight: int,
)
    requires
        ({
            ||| forward == 0 && input == Some(4int) && weight == 7
            ||| forward == 1 && input is None && weight == 8
            ||| forward == 2 && input == Some(5int) && weight == 9
            ||| forward == 3 && input == Some(6int) && weight == 10
            ||| forward == 11 && input == Some(12int) && weight == 13
        }),
    ensures
        ({
            let (_, m, k, n, mode) = model_case_of(forward);
            let (_, wm, wk, wn, wmode) = model_case_of(weight);
            &&& (wm, wk, wn) == (k, m, n)
            &&& mode == Mode::F32Store && wmode == Mode::F32AccumulateT || mode == Mode::Bf16Store
                && wmode == Mode::Bf16AccumulateT
            &&& input matches Some(input) ==> {
                let (_, im, ik, i_n, imode) = model_case_of(input);
                (im, ik, i_n) == (m, n, k) && imode == mode
            }
        }),
{
}

/// Law: the forward products chain. All tokens go through the attention and the
/// head, a quarter of them through an expert; the hidden width is 3072 throughout,
/// three of it leave the first projection, and what enters an expert's activation
/// is twice as wide as what leaves it.
pub proof fn law_forward_products_chain()
    ensures
        ({
            let qkv = model_case_of(0);
            let out = model_case_of(1);
            let gate_up = model_case_of(2);
            let down = model_case_of(3);
            let head = model_case_of(11);
            &&& qkv.1 == 24576 && out.1 == 24576 && head.1 == 24576
            &&& gate_up.1 == 6144 && down.1 == 6144
            &&& qkv.2 == 3072 && out.2 == 3072 && gate_up.2 == 3072 && head.2 == 3072
            &&& out.3 == 3072 && down.3 == 3072
            &&& qkv.3 == 3 * 3072
            &&& gate_up.3 == 2 * down.2 && down.2 == 4096
            &&& head.3 == 50432
        }),
{
}

/// Law: the operand generator steps by one congruence: each state is the one before
/// it times 6364136223846793005, plus 1442695040888963407, on 64 bits, and the
/// first is the seed times that factor, plus one.
pub proof fn law_the_generator_steps(seed: u64, element: int)
    requires
        0 <= element,
    ensures
        generator(seed, 0) == (seed * 6364136223846793005 + 1) % 0x1_0000_0000_0000_0000,
        generator(seed, element + 1) == (generator(seed, element) * 6364136223846793005
            + 1442695040888963407) % 0x1_0000_0000_0000_0000,
        -4 <= drawn_quarters(seed, element) <= 4,
        (drawn_quarters(seed, element) + 4 - generator(seed, element + 1) as int / 0x2_0000_0000)
            % 9 == 0,
{
    let state = generator(seed, element);
    let product = state * 6364136223846793005;
    lemma_wrapped_step(product, state.wrapping_mul(6364136223846793005), 1442695040888963407);
    let first = seed * 6364136223846793005;
    lemma_wrapped_step(first, seed.wrapping_mul(6364136223846793005), 1);
    lemma_residue(generator(seed, element + 1) as int / 0x2_0000_0000);
}

proof fn lemma_wrapped_step(product: int, wrapped: u64, step: u64)
    requires
        wrapped == product % 0x1_0000_0000_0000_0000,
    ensures
        wrapped.wrapping_add(step) == (product + step) % 0x1_0000_0000_0000_0000,
{
}

proof fn lemma_residue(value: int)
    ensures
        0 <= value % 9 <= 8,
        (value % 9 - value) % 9 == 0,
{
}

/// Law: a disagreement names the worst element: at its row and column stands its
/// error, no error exceeds that, and none before it equals it; and it counts the
/// elements beyond the tolerance.
pub proof fn law_a_disagreement_names_the_worst(
    errors: Seq<u32>,
    tolerance: u32,
    m: int,
    n: int,
    found: Disagreement,
)
    requires
        tolerance < 0x7f80_0000,
        0 < n,
        0 <= m * n <= usize::MAX,
        errors.len() <= usize::MAX,
        verdict(errors, tolerance, m, n) == Err::<(), Disagreement>(found),
    ensures
        found.elements == m * n,
        found.column < n,
        n * found.row + found.column < errors.len(),
        found.error == errors[n * found.row + found.column],
        exceeds(found.error, tolerance),
        forall|i: int| 0 <= i < errors.len() ==> !exceeds(#[trigger] errors[i], found.error),
        forall|i: int|
            0 <= i < n * found.row + found.column ==> !same_value(
                #[trigger] errors[i],
                found.error,
            ),
        exists|places: Seq<usize>|
            found.wrong == #[trigger] places.len() && (forall|place: usize|
                places.contains(place) <==> place < errors.len() && exceeds(
                    errors[place as int],
                    tolerance,
                )) && (forall|k: int, l: int|
                0 <= k < l < places.len() ==> places[k] < places[l]),
{
    let count = errors.len() as int;
    law_agreement_is_no_error_beyond(errors, tolerance, m, n);
    lemma_worst(errors, count);
    let worst = worst_of(errors, count);
    vstd::arithmetic::div_mod::lemma_fundamental_div_mod(worst.1, n);
    vstd::arithmetic::div_mod::lemma_mod_pos_bound(worst.1, n);
    vstd::arithmetic::div_mod::lemma_div_pos_is_pos(worst.1, n);
    vstd::arithmetic::div_mod::lemma_div_nonincreasing(worst.1, n);
    law_picked_are_the_places_in_order(count, beyond(errors, tolerance));
    lemma_picked_len(count, beyond(errors, tolerance));
    let places = picked(count, beyond(errors, tolerance));
    assert(found.wrong == places.len());
}

} // verus!
