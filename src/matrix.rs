use vstd::prelude::*;

verus! {

/// Shape check for multiplying a `rows_a x cols_a` matrix by a
/// `cols_a x cols_b` matrix, both flattened row-major into buffers of
/// `a_len` and `b_len` entries. Mismatched shapes are rejected rather than
/// read out of bounds: the result is the product's length `rows_a * cols_b`
/// when both buffers are long enough and every size fits in `usize`, and
/// `None` otherwise.
pub fn product_len(a_len: usize, b_len: usize, rows_a: usize, cols_a: usize, cols_b: usize) -> (r:
    Option<usize>)
    ensures
        r is Some <==> (rows_a as int * cols_a as int <= a_len as int && cols_a as int
            * cols_b as int <= b_len as int && rows_a as int * cols_b as int <= usize::MAX as int),
        r is Some ==> r->0 as int == rows_a as int * cols_b as int,
{
    let need_a = rows_a.checked_mul(cols_a);
    let need_b = cols_a.checked_mul(cols_b);
    let out = rows_a.checked_mul(cols_b);
    match (need_a, need_b, out) {
        (Some(na), Some(nb), Some(n)) => {
            if na <= a_len && nb <= b_len {
                Some(n)
            } else {
                None
            }
        },
        _ => None,
    }
}

} // verus!
