//! The library product that the kernel is timed against: what to ask a
//! column-major library for so that it computes the kernel's row-major product.

use vstd::prelude::*;

verus! {

/// Scratch the library may use.
pub const WORKSPACE_BYTES: usize = 33554432;

/// Library code of an fp32 element.
pub const CUDA_R_32F: i32 = 0;

/// Library code of a bf16 element.
pub const CUDA_R_16BF: i32 = 14;

/// Library code of fp32 arithmetic.
pub const CUBLAS_COMPUTE_32F: i32 = 68;

/// Library code of an operand taken as it is.
pub const CUBLAS_OP_N: i32 = 0;

/// Library code of an operand taken transposed.
pub const CUBLAS_OP_T: i32 = 1;

/// Attribute of the first operand's transpose.
pub const DESC_TRANSA: i32 = 3;

/// Attribute of the second operand's transpose.
pub const DESC_TRANSB: i32 = 4;

/// Attribute of the workspace limit.
pub const PREF_MAX_WORKSPACE_BYTES: i32 = 1;

/// Which product is computed.
#[derive(Clone, Copy, PartialEq, Eq, Structural, Debug)]
pub enum Form {
    /// `C = A B^T` over `[m, k]` and `[n, k]` operands.
    Store,
    /// `C += A^T B` over `[k, m]` and `[k, n]` operands.
    AccumulateTransposed,
}

/// Element of `C`.
#[derive(Clone, Copy, PartialEq, Eq, Structural, Debug)]
pub enum OutElement {
    Bf16,
    F32,
}

/// A column-major matrix.
#[derive(Clone, Copy, PartialEq, Eq, Structural, Debug)]
pub struct MatrixLayout {
    pub element: i32,
    pub rows: usize,
    pub columns: usize,
    pub leading_dimension: usize,
}

impl MatrixLayout {
    /// Where the element of a row and column is stored.
    pub open spec fn address(self, row: int, column: int) -> int {
        row + self.leading_dimension * column
    }

    /// Where the element of a row and column of the operand is stored, once the
    /// operation is applied.
    pub open spec fn operand_address(self, operation: i32, row: int, column: int) -> int {
        if operation == CUBLAS_OP_T {
            self.address(column, row)
        } else {
            self.address(row, column)
        }
    }
}

/// A configured product: the library's first operand is the kernel's `b`, its
/// second the kernel's `a`, and it writes the transpose of `C`.
#[derive(Clone, Copy, PartialEq, Eq, Structural, Debug)]
pub struct Baseline {
    pub trans_a: i32,
    pub trans_b: i32,
    pub a: MatrixLayout,
    pub b: MatrixLayout,
    pub d: MatrixLayout,
    /// Whether `C` is added to.
    pub accumulates: bool,
}

impl Baseline {
    /// The configuration of a form.
    pub open spec fn configured(m: usize, n: usize, k: usize, form: Form, out: OutElement) -> Baseline {
        let element = match out {
            OutElement::Bf16 => CUDA_R_16BF,
            OutElement::F32 => CUDA_R_32F,
        };
        let d = MatrixLayout { element, rows: n, columns: m, leading_dimension: n };
        match form {
            Form::Store => Baseline {
                trans_a: CUBLAS_OP_T,
                trans_b: CUBLAS_OP_N,
                a: MatrixLayout {
                    element: CUDA_R_16BF,
                    rows: k,
                    columns: n,
                    leading_dimension: k,
                },
                b: MatrixLayout {
                    element: CUDA_R_16BF,
                    rows: k,
                    columns: m,
                    leading_dimension: k,
                },
                d,
                accumulates: false,
            },
            Form::AccumulateTransposed => Baseline {
                trans_a: CUBLAS_OP_N,
                trans_b: CUBLAS_OP_T,
                a: MatrixLayout {
                    element: CUDA_R_16BF,
                    rows: n,
                    columns: k,
                    leading_dimension: n,
                },
                b: MatrixLayout {
                    element: CUDA_R_16BF,
                    rows: m,
                    columns: k,
                    leading_dimension: m,
                },
                d,
                accumulates: true,
            },
        }
    }

    /// `C = A B^T`, packed bf16.
    pub fn new(m: usize, n: usize, k: usize) -> (baseline: Baseline)
        ensures
            baseline == Baseline::configured(m, n, k, Form::Store, OutElement::Bf16),
            baseline.trans_a == 1 && baseline.trans_b == 0 && !baseline.accumulates,
            baseline.a == (MatrixLayout { element: 14, rows: k, columns: n, leading_dimension: k }),
            baseline.b == (MatrixLayout { element: 14, rows: k, columns: m, leading_dimension: k }),
            baseline.d == (MatrixLayout { element: 14, rows: n, columns: m, leading_dimension: n }),
    {
        Baseline::with_form(m, n, k, Form::Store, OutElement::Bf16)
    }

    /// The product of a form, with `C` of an element.
    pub fn with_form(m: usize, n: usize, k: usize, form: Form, out: OutElement) -> (baseline:
        Baseline)
        ensures
            baseline == Baseline::configured(m, n, k, form, out),
            baseline.d.element == if out == OutElement::Bf16 {
                14int
            } else {
                0
            },
            baseline.d.rows == n && baseline.d.columns == m && baseline.d.leading_dimension == n,
            match form {
                Form::Store => {
                    &&& baseline.trans_a == 1 && baseline.trans_b == 0 && !baseline.accumulates
                    &&& baseline.a == (MatrixLayout {
                        element: 14,
                        rows: k,
                        columns: n,
                        leading_dimension: k,
                    })
                    &&& baseline.b == (MatrixLayout {
                        element: 14,
                        rows: k,
                        columns: m,
                        leading_dimension: k,
                    })
                },
                Form::AccumulateTransposed => {
                    &&& baseline.trans_a == 0 && baseline.trans_b == 1 && baseline.accumulates
                    &&& baseline.a == (MatrixLayout {
                        element: 14,
                        rows: n,
                        columns: k,
                        leading_dimension: n,
                    })
                    &&& baseline.b == (MatrixLayout {
                        element: 14,
                        rows: m,
                        columns: k,
                        leading_dimension: m,
                    })
                },
            },
    {
        let element: i32 = match out {
            OutElement::Bf16 => CUDA_R_16BF,
            OutElement::F32 => CUDA_R_32F,
        };
        let d = MatrixLayout { element, rows: n, columns: m, leading_dimension: n };
        match form {
            Form::Store => Baseline {
                trans_a: CUBLAS_OP_T,
                trans_b: CUBLAS_OP_N,
                a: MatrixLayout {
                    element: CUDA_R_16BF,
                    rows: k,
                    columns: n,
                    leading_dimension: k,
                },
                b: MatrixLayout {
                    element: CUDA_R_16BF,
                    rows: k,
                    columns: m,
                    leading_dimension: k,
                },
                d,
                accumulates: false,
            },
            Form::AccumulateTransposed => Baseline {
                trans_a: CUBLAS_OP_N,
                trans_b: CUBLAS_OP_T,
                a: MatrixLayout {
                    element: CUDA_R_16BF,
                    rows: n,
                    columns: k,
                    leading_dimension: n,
                },
                b: MatrixLayout {
                    element: CUDA_R_16BF,
                    rows: m,
                    columns: k,
                    leading_dimension: m,
                },
                d,
                accumulates: true,
            },
        }
    }
}

/// Where the kernel's `a` keeps the factor of output row `row` at a depth.
pub open spec fn kernel_a(m: int, k: int, form: Form, row: int, depth: int) -> int {
    match form {
        Form::Store => k * row + depth,
        Form::AccumulateTransposed => m * depth + row,
    }
}

/// Where the kernel's `b` keeps the factor of output column `column` at a depth.
pub open spec fn kernel_b(n: int, k: int, form: Form, column: int, depth: int) -> int {
    match form {
        Form::Store => k * column + depth,
        Form::AccumulateTransposed => n * depth + column,
    }
}

/// Law: the library computes the kernel's product. The element it writes at its
/// row `column` and column `row` lies where the kernel writes `C[row, column]`,
/// and for every depth the two factors it reads are the kernel's own: of `b` by
/// its first operand, of `a` by its second.
pub proof fn law_baseline_is_the_kernels_product(
    m: usize,
    n: usize,
    k: usize,
    form: Form,
    out: OutElement,
    row: int,
    column: int,
    depth: int,
)
    requires
        0 <= row < m,
        0 <= column < n,
        0 <= depth < k,
    ensures
        ({
            let baseline = Baseline::configured(m, n, k, form, out);
            &&& baseline.d.address(column, row) == n * row + column
            &&& baseline.a.operand_address(baseline.trans_a, column, depth) == kernel_b(
                n as int,
                k as int,
                form,
                column,
                depth,
            )
            &&& baseline.b.operand_address(baseline.trans_b, depth, row) == kernel_a(
                m as int,
                k as int,
                form,
                row,
                depth,
            )
            &&& baseline.accumulates == (form == Form::AccumulateTransposed)
        }),
{
}

/// Why a product cannot be configured.
#[derive(Clone, Copy, PartialEq, Eq, Structural, Debug)]
pub enum BaselineError {
    /// A call failed with this status.
    Status(i32),
    /// The library has no algorithm for the shape.
    NoAlgorithm,
}

/// Success is status zero.
pub fn checked(status: i32) -> (outcome: Result<(), BaselineError>)
    ensures
        outcome == if status == 0 {
            Ok::<(), BaselineError>(())
        } else {
            Err(BaselineError::Status(status))
        },
{
    if status == 0 {
        Ok(())
    } else {
        Err(BaselineError::Status(status))
    }
}

/// Whether the heuristic's answer is usable: the query succeeded, it returned an
/// algorithm, and that algorithm's own status is success.
pub fn usable(query: i32, returned: i32, state: i32) -> (outcome: Result<(), BaselineError>)
    ensures
        outcome == if query != 0 {
            Err::<(), BaselineError>(BaselineError::Status(query))
        } else if returned == 0 {
            Err(BaselineError::NoAlgorithm)
        } else if state != 0 {
            Err(BaselineError::Status(state))
        } else {
            Ok(())
        },
{
    if query != 0 {
        Err(BaselineError::Status(query))
    } else if returned == 0 {
        Err(BaselineError::NoAlgorithm)
    } else {
        checked(state)
    }
}

/// An object a session may hold.
#[derive(Clone, Copy, PartialEq, Eq, Structural, Debug)]
pub enum SessionObject {
    Handle,
    Desc,
    A,
    B,
    D,
    Preference,
}

/// The objects of a session, in the order they are created.
pub open spec fn creation_order() -> Seq<SessionObject> {
    seq![
        SessionObject::Handle,
        SessionObject::Desc,
        SessionObject::A,
        SessionObject::B,
        SessionObject::D,
        SessionObject::Preference,
    ]
}

/// Object to create next in a session of which the first `created` objects exist;
/// none once the session is complete.
pub fn next_object(created: usize) -> (next: Option<SessionObject>)
    requires
        created <= 6,
    ensures
        next == if created < 6 {
            Some(creation_order()[created as int])
        } else {
            None
        },
        next is None <==> created == 6,
        created == 0 ==> next == Some(SessionObject::Handle),
        created == 1 ==> next == Some(SessionObject::Desc),
        created == 2 ==> next == Some(SessionObject::A),
        created == 3 ==> next == Some(SessionObject::B),
        created == 4 ==> next == Some(SessionObject::D),
        created == 5 ==> next == Some(SessionObject::Preference),
{
    match created {
        0 => Some(SessionObject::Handle),
        1 => Some(SessionObject::Desc),
        2 => Some(SessionObject::A),
        3 => Some(SessionObject::B),
        4 => Some(SessionObject::D),
        5 => Some(SessionObject::Preference),
        _ => None,
    }
}

/// Objects a session holds after an attempt to create the next one came back with
/// `status`: one more on success. A failed attempt leaves nothing to destroy.
pub fn admitted(created: usize, status: i32) -> (outcome: Result<usize, BaselineError>)
    requires
        created < 6,
    ensures
        outcome == if status == 0 {
            Ok::<usize, BaselineError>((created + 1) as usize)
        } else {
            Err(BaselineError::Status(status))
        },
{
    match checked(status) {
        Ok(()) => Ok(created + 1),
        Err(error) => Err(error),
    }
}

/// Objects to destroy when a session of which the first `created` objects exist
/// is dropped: exactly those, last created first.
pub fn teardown(created: usize) -> (order: Vec<SessionObject>)
    requires
        created <= 6,
    ensures
        order@ == creation_order().take(created as int).reverse(),
        order@.len() == created,
        0 < created ==> order@[created - 1] == SessionObject::Handle,
        1 < created ==> order@[created - 2] == SessionObject::Desc,
        2 < created ==> order@[created - 3] == SessionObject::A,
        3 < created ==> order@[created - 4] == SessionObject::B,
        4 < created ==> order@[created - 5] == SessionObject::D,
        5 < created ==> order@[created - 6] == SessionObject::Preference,
{
    let mut order: Vec<SessionObject> = Vec::new();
    if created > 5 {
        order.push(SessionObject::Preference);
    }
    if created > 4 {
        order.push(SessionObject::D);
    }
    if created > 3 {
        order.push(SessionObject::B);
    }
    if created > 2 {
        order.push(SessionObject::A);
    }
    if created > 1 {
        order.push(SessionObject::Desc);
    }
    if created > 0 {
        order.push(SessionObject::Handle);
    }
    proof {
        assert(order@ =~= creation_order().take(created as int).reverse());
    }
    order
}

/// The object created last is destroyed first, and what is destroyed after it is
/// what the session held before it.
pub proof fn law_teardown_undoes_the_set_up(created: int)
    requires
        0 <= created < 6,
    ensures
        creation_order().take(created + 1).reverse() == seq![creation_order()[created]]
            + creation_order().take(created).reverse(),
{
    assert(creation_order().take(created + 1).reverse() =~= seq![creation_order()[created]]
        + creation_order().take(created).reverse());
}

/// An attribute that identifies a chosen algorithm.
#[derive(Clone, Copy, Debug)]
pub struct AlgorithmAttribute {
    pub name: &'static str,
    pub code: i32,
    /// Bytes of its value.
    pub width: usize,
}

/// Attributes of a chosen algorithm, in the order they are shown. The last two
/// are 16 bits wide, the others 32.
pub fn algorithm_attribute(index: usize) -> (attribute: AlgorithmAttribute)
    requires
        index < 8,
    ensures
        attribute.name@ == if index == 0 {
            "id"@
        } else if index == 1 {
            "tile"@
        } else if index == 2 {
            "splitk"@
        } else if index == 3 {
            "reduction"@
        } else if index == 4 {
            "swizzle"@
        } else if index == 5 {
            "stages"@
        } else if index == 6 {
            "inner"@
        } else {
            "cluster"@
        },
        attribute.code == if index < 5 {
            index as int
        } else {
            index + 1
        },
        attribute.width == if index < 6 {
            4int
        } else {
            2
        },
{
    match index {
        0 => AlgorithmAttribute { name: "id", code: 0, width: 4 },
        1 => AlgorithmAttribute { name: "tile", code: 1, width: 4 },
        2 => AlgorithmAttribute { name: "splitk", code: 2, width: 4 },
        3 => AlgorithmAttribute { name: "reduction", code: 3, width: 4 },
        4 => AlgorithmAttribute { name: "swizzle", code: 4, width: 4 },
        5 => AlgorithmAttribute { name: "stages", code: 6, width: 4 },
        6 => AlgorithmAttribute { name: "inner", code: 7, width: 2 },
        _ => AlgorithmAttribute { name: "cluster", code: 8, width: 2 },
    }
}

/// Law: the extents of a configured product fit one another, and each matrix lies
/// without gaps: once the operations are applied the first operand is `n` by `k`,
/// the second `k` by `m` and the result `n` by `m`, and a column is as long as the
/// step to the next.
pub proof fn law_the_extents_of_a_product_agree(
    m: usize,
    n: usize,
    k: usize,
    form: Form,
    out: OutElement,
)
    ensures
        ({
            let baseline = Baseline::configured(m, n, k, form, out);
            let first = if baseline.trans_a == 1 {
                (baseline.a.columns, baseline.a.rows)
            } else {
                (baseline.a.rows, baseline.a.columns)
            };
            let second = if baseline.trans_b == 1 {
                (baseline.b.columns, baseline.b.rows)
            } else {
                (baseline.b.rows, baseline.b.columns)
            };
            &&& first == (n, k)
            &&& second == (k, m)
            &&& (baseline.d.rows, baseline.d.columns) == (n, m)
            &&& baseline.a.leading_dimension == baseline.a.rows
            &&& baseline.b.leading_dimension == baseline.b.rows
            &&& baseline.d.leading_dimension == baseline.d.rows
        }),
{
}

/// Law: the factors that a storing product reads lie in row-major `[m, k]` and
/// `[n, k]` operands, those of an accumulating one in `[k, m]` and `[k, n]`.
pub proof fn law_the_factors_lie_in_row_major_operands(
    m: usize,
    n: usize,
    k: usize,
    out: OutElement,
    row: int,
    column: int,
    depth: int,
)
    ensures
        ({
            let store = Baseline::configured(m, n, k, Form::Store, out);
            let adding = Baseline::configured(m, n, k, Form::AccumulateTransposed, out);
            &&& store.b.operand_address(store.trans_b, depth, row) == k * row + depth
            &&& store.a.operand_address(store.trans_a, column, depth) == k * column + depth
            &&& adding.b.operand_address(adding.trans_b, depth, row) == m * depth + row
            &&& adding.a.operand_address(adding.trans_a, column, depth) == n * depth + column
        }),
{
}

} // verus!
