//! Pointwise integer functions on fixed-point values: the reference results that a
//! lookup table must reproduce.

use vstd::prelude::*;
use crate::tensor::Tensor;
use crate::tensor::ops::{abs, fits_i32};

verus! {

/// `a / s` rounded to the nearest integer, halves away from zero.
pub open spec fn round_div(a: int, s: int) -> int {
    let q = (2 * abs(a) + abs(s)) / (2 * abs(s));
    if (a < 0) == (s < 0) {
        q
    } else {
        -q
    }
}

/// Divides every element by `scale`, rounding to the nearest integer with halves away
/// from zero.
pub fn const_div(a: &Tensor<i32>, scale: i32) -> (r: Tensor<i32>)
    requires
        a.wf(),
        scale != 0,
        forall|i: int| 0 <= i < a.data().len() ==> fits_i32(#[trigger] round_div(a.data()[i] as int, scale as int)),
    ensures
        r.wf(),
        r.shape() == a.shape(),
        r.data().len() == a.data().len(),
        forall|i: int|
            0 <= i < r.data().len() ==> #[trigger] r.data()[i] == round_div(a.data()[i] as int, scale as int),
{
    let s = scale as i64;
    let ss: i64 = if s < 0 {
        -s
    } else {
        s
    };
    let len = a.len();
    let mut out: Vec<i32> = Vec::new();
    let mut i: usize = 0;
    while i < len
        invariant
            a.wf(),
            forall|i: int| 0 <= i < a.data().len() ==> fits_i32(#[trigger] round_div(a.data()[i] as int, scale as int)),
            s == scale,
            ss == abs(scale as int),
            ss >= 1,
            len == a.data().len(),
            i <= len,
            out@.len() == i,
            forall|p: int| 0 <= p < i ==> #[trigger] out@[p] == round_div(a.data()[p] as int, scale as int),
        decreases len - i,
    {
        let x = *a.get(i) as i64;
        let xa: i64 = if x < 0 {
            -x
        } else {
            x
        };
        let q = (2 * xa + ss) / (2 * ss);
        let v: i64 = if (x < 0) == (s < 0) {
            q
        } else {
            -q
        };
        proof {
            assert(v == round_div(a.data()[i as int] as int, scale as int));
            assert(fits_i32(round_div(a.data()[i as int] as int, scale as int)));
        }
        out.push(v as i32);
        i = i + 1;
    }
    Tensor::from_parts(out, a.dims().clone())
}

/// The rectified value of `x` at fixed-point `scale`: `max(x, 0) / scale`, rounded.
pub open spec fn relu_value(x: int, scale: int) -> int {
    round_div(if x > 0 { x } else { 0 }, scale)
}

/// The rectified value of one element.
pub fn relu_elem(x: i32, scale: i32) -> (r: i32)
    requires
        scale >= 1,
    ensures
        r == relu_value(x as int, scale as int),
{
    let xa: i64 = if x > 0 {
        x as i64
    } else {
        0
    };
    let s = scale as i64;
    let q = (2 * xa + s) / (2 * s);
    proof {
        assert(q <= xa) by (nonlinear_arith)
            requires
                q == (2 * xa + s) / (2 * s),
                xa >= 0,
                s >= 1,
        ;
        assert(q >= 0) by (nonlinear_arith)
            requires
                q == (2 * xa + s) / (2 * s),
                xa >= 0,
                s >= 1,
        ;
    }
    q as i32
}

/// Applies the rectifier at fixed-point `scale` to every element.
pub fn relu(a: &Tensor<i32>, scale: i32) -> (r: Tensor<i32>)
    requires
        a.wf(),
        scale >= 1,
    ensures
        r.wf(),
        r.shape() == a.shape(),
        r.data().len() == a.data().len(),
        forall|i: int| 0 <= i < r.data().len() ==> #[trigger] r.data()[i] == relu_value(a.data()[i] as int, scale as int),
{
    let len = a.len();
    let mut out: Vec<i32> = Vec::new();
    let mut i: usize = 0;
    while i < len
        invariant
            a.wf(),
            scale >= 1,
            len == a.data().len(),
            i <= len,
            out@.len() == i,
            forall|p: int| 0 <= p < i ==> #[trigger] out@[p] == relu_value(a.data()[p] as int, scale as int),
        decreases len - i,
    {
        out.push(relu_elem(*a.get(i), scale));
        i = i + 1;
    }
    Tensor::from_parts(out, a.dims().clone())
}

} // verus!
