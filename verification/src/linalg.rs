//! The one place where integer linear algebra is computed: a 4×4 matrix times a
//! 4-vector, by `nalgebra`.

use nalgebra::{Matrix4, Vector4};
use vstd::prelude::*;

verus! {

/// The largest absolute value of an entry that [`matrix_vector_product`] takes:
/// 2³⁰, so that a sum of four products of entries stays below 2⁶³.
pub const ENTRY_LIMIT: i64 = 1_073_741_824;

/// Row `i` of the matrix whose columns are `columns`, times `v`.
pub open spec fn row_times_vector(columns: [[i64; 4]; 4], v: [i64; 4], i: int) -> int {
    columns[0][i] * v[0] + columns[1][i] * v[1] + columns[2][i] * v[2] + columns[3][i] * v[3]
}

/// Whether every entry lies within `ENTRY_LIMIT` of zero.
pub open spec fn entries_within_limit(columns: [[i64; 4]; 4], v: [i64; 4]) -> bool {
    &&& forall|j: int, i: int|
        0 <= j < 4 && 0 <= i < 4 ==> -ENTRY_LIMIT <= #[trigger] columns[j][i] <= ENTRY_LIMIT
    &&& forall|j: int| 0 <= j < 4 ==> -ENTRY_LIMIT <= #[trigger] v[j] <= ENTRY_LIMIT
}

/// The product of the 4×4 integer matrix with the given columns and the vector
/// `v`, computed by nalgebra's `Matrix4 * Vector4`.
///
/// nalgebra stores a matrix column by column, so `columns[j][i]` is the entry in
/// row `i` and column `j`. For integers it computes entry `i` of the result as
/// the sum over `j` of `columns[j][i] * v[j]`, adding column after column with
/// the machine's `+` and `*`. The contract claims that sum, for entries small
/// enough that no step of it overflows.
#[verifier::external_body]
pub(crate) fn matrix_vector_product(columns: &[[i64; 4]; 4], v: &[i64; 4]) -> (out: [i64; 4])
    requires
        entries_within_limit(*columns, *v),
    ensures
        forall|i: int| 0 <= i < 4 ==> #[trigger] out[i] == row_times_vector(*columns, *v, i),
{
    let product = Matrix4::from(*columns) * Vector4::from(*v);
    product.into()
}

} // verus!
