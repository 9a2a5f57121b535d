//! The bounded-difference constraint: `input - expected` must lie in a window around
//! zero, enforced by one polynomial per element that vanishes exactly there.

use vstd::prelude::*;
use crate::tensor::{Tensor, TensorError, is_dim_mismatch};
use crate::tensor::ops::same_dims;

verus! {

/// `prod_{k < n} (lo + k - v)`.
pub open spec fn factor_product(lo: int, n: nat, v: int) -> int
    decreases n,
{
    if n == 0 {
        1
    } else {
        factor_product(lo, (n - 1) as nat, v) * (lo + n - 1 - v)
    }
}

/// The number of linear factors beside `v` in the range-check constraint: one for each
/// integer strictly between `-tol` and `tol`.
pub open spec fn factor_count(tol: int) -> nat {
    if tol >= 1 {
        (2 * tol - 1) as nat
    } else {
        0
    }
}

/// The range-check constraint on a difference `v` for tolerance `tol`:
/// `v * (-tol + 1 - v) * (-tol + 2 - v) * ... * (tol - 1 - v)`.
pub open spec fn range_poly(tol: int, v: int) -> int {
    v * factor_product(-tol + 1, factor_count(tol), v)
}

proof fn lemma_mul_zero_iff(a: int, b: int)
    ensures
        (a * b == 0) <==> (a == 0 || b == 0),
{
    assert((a * b == 0) <==> (a == 0 || b == 0)) by (nonlinear_arith);
}

/// A product of linear factors vanishes exactly at the factors' roots.
pub proof fn lemma_factor_product_zero_iff(lo: int, n: nat, v: int)
    ensures
        (factor_product(lo, n, v) == 0) <==> (lo <= v < lo + n),
    decreases n,
{
    if n > 0 {
        lemma_factor_product_zero_iff(lo, (n - 1) as nat, v);
        lemma_mul_zero_iff(factor_product(lo, (n - 1) as nat, v), lo + n - 1 - v);
    }
}

/// For a tolerance of at least one, the range-check constraint holds of a difference
/// exactly when the difference lies strictly between `-tol` and `tol`: `tol`, `-tol` and
/// everything beyond them fail it.
pub proof fn lemma_range_check_zero_iff(tol: int, v: int)
    requires
        tol >= 1,
    ensures
        (range_poly(tol, v) == 0) <==> (-tol < v < tol),
{
    lemma_factor_product_zero_iff(-tol + 1, factor_count(tol), v);
    lemma_mul_zero_iff(v, factor_product(-tol + 1, factor_count(tol), v));
}

/// The constants `c` of the factors `(c - v)` of the range-check constraint, in the
/// order in which they are multiplied: `-tol + 1, -tol + 2, ..., tol - 1`.
pub fn range_check_factors(tol: usize) -> (r: Vec<i32>)
    requires
        tol <= i32::MAX,
    ensures
        r@.len() == factor_count(tol as int),
        forall|k: int| 0 <= k < r@.len() ==> #[trigger] r@[k] == k - tol + 1,
{
    let t = tol as i32;
    let mut r: Vec<i32> = Vec::new();
    let mut c: i32 = 1 - t;
    while c < t
        invariant
            t == tol,
            1 - t <= c,
            t >= 1 ==> c <= t,
            t == 0 ==> c == 1,
            r@.len() == c + t - 1,
            forall|k: int| 0 <= k < r@.len() ==> #[trigger] r@[k] == k - tol + 1,
        decreases t - c,
    {
        r.push(c);
        c = c + 1;
    }
    r
}

/// Whether every element's difference `input - expected` satisfies the range-check
/// constraint for tolerance `tol`; fails when the shapes differ.
pub fn range_check_holds(tol: usize, input: &Tensor<i32>, expected: &Tensor<i32>) -> (r: Result<
    bool,
    TensorError,
>)
    requires
        input.wf(),
        expected.wf(),
    ensures
        r is Ok <==> input.shape() == expected.shape(),
        r matches Err(e) ==> is_dim_mismatch(e, "range check"@),
        r matches Ok(b) ==> b == forall|i: int|
            0 <= i < input.data().len() ==> range_poly(
                tol as int,
                #[trigger] input.data()[i] as int - expected.data()[i] as int,
            ) == 0,
{
    if !same_dims(input.dims(), expected.dims()) {
        return Err(TensorError::DimMismatch("range check".to_string()));
    }
    let len = input.len();
    let t = tol as i128;
    let mut i: usize = 0;
    while i < len
        invariant
            input.wf(),
            expected.wf(),
            input.shape() == expected.shape(),
            len == input.data().len(),
            len == expected.data().len(),
            t == tol,
            i <= len,
            forall|p: int|
                0 <= p < i ==> range_poly(
                    tol as int,
                    #[trigger] input.data()[p] as int - expected.data()[p] as int,
                ) == 0,
        decreases len - i,
    {
        let v = *input.get(i) as i128 - *expected.get(i) as i128;
        proof {
            if tol == 0 {
                assert(range_poly(0, v as int) == v * 1);
            } else {
                lemma_range_check_zero_iff(tol as int, v as int);
            }
        }
        let inside = if t == 0 {
            v == 0
        } else {
            -t < v && v < t
        };
        if !inside {
            return Ok(false);
        }
        i = i + 1;
    }
    Ok(true)
}

} // verus!
