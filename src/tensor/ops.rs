//! Shape-checked integer arithmetic on tensors.
//!
//! Every operation states its result over mathematical integers. Sums of
//! products are accumulated in `i128`, which no sum over a `usize`-indexed
//! range of `i32` products can overflow, so the only bound a caller owes is
//! that each final element fits in an `i32`.

use vstd::prelude::*;
use vstd::arithmetic::div_mod::{
    lemma_fundamental_div_mod,
    lemma_fundamental_div_mod_converse,
};
use crate::tensor::{Tensor, TensorError, shape_product, is_dim_mismatch};
use itertools::Itertools;

verus! {

/// The magnitude bound of a product of two `i32` values.
pub open spec fn prod_bound() -> int {
    0x4000_0000_0000_0000
}

/// `v` is representable as an `i32`.
pub open spec fn fits_i32(v: int) -> bool {
    i32::MIN <= v <= i32::MAX
}

/// `sum_{l < n} a[ao + l] * b[bo + l * bs]`: a row of `a` against a strided column of `b`.
pub open spec fn strided_dot(a: Seq<i32>, ao: int, b: Seq<i32>, bo: int, bs: int, n: nat) -> int
    decreases n,
{
    if n == 0 {
        0
    } else {
        strided_dot(a, ao, b, bo, bs, (n - 1) as nat) + (a[ao + n - 1] as int) * (b[bo + (n
            - 1) * bs] as int)
    }
}

/// The dot product of the first `n` elements of two sequences.
pub open spec fn seq_dot(a: Seq<i32>, b: Seq<i32>, n: nat) -> int {
    strided_dot(a, 0, b, 0, 1, n)
}

proof fn lemma_mul_i32_bound(a: i32, b: i32)
    ensures
        -prod_bound() <= (a as int) * (b as int) <= prod_bound(),
{
    let x = a as int;
    let y = b as int;
    assert(-0x8000_0000 <= x <= 0x7fff_ffff && -0x8000_0000 <= y <= 0x7fff_ffff);
    assert(-0x4000_0000_0000_0000 <= x * y <= 0x4000_0000_0000_0000) by (nonlinear_arith)
        requires
            -0x8000_0000 <= x <= 0x7fff_ffff,
            -0x8000_0000 <= y <= 0x7fff_ffff,
    ;
}

proof fn lemma_mul_le_right(x: int, y: int, z: int)
    requires
        0 <= x <= y,
        0 <= z,
    ensures
        x * z <= y * z,
{
    assert(x * z <= y * z) by (nonlinear_arith)
        requires
            0 <= x <= y,
            0 <= z,
    ;
}

/// Row-major offset bounds for a two-level index.
proof fn lemma_flat2(i: int, j: int, n: int, m: int)
    requires
        0 <= i < n,
        0 <= j < m,
    ensures
        0 <= i * m + j < n * m,
        i * m + m <= n * m,
        (i * m + j) / m == i,
        (i * m + j) % m == j,
{
    assert(i * m + m <= n * m) by (nonlinear_arith)
        requires
            0 <= i < n,
            0 <= m,
    ;
    assert(0 <= i * m) by (nonlinear_arith)
        requires
            0 <= i,
            0 <= m,
    ;
    lemma_fundamental_div_mod_converse(i * m + j, m, i, j);
}

/// Splitting a flat offset below `n * m` into its row and column.
proof fn lemma_split2(q: int, n: int, m: int)
    requires
        0 <= q < n * m,
        m > 0,
    ensures
        0 <= q / m < n,
        0 <= q % m < m,
        q == (q / m) * m + q % m,
{
    lemma_fundamental_div_mod(q, m);
    assert(0 <= q % m < m);
    let d = q / m;
    assert(m * d == d * m) by (nonlinear_arith);
    assert(d < n) by (nonlinear_arith)
        requires
            m * d + q % m == q,
            0 <= q % m,
            q < n * m,
            m > 0,
    ;
    assert(d >= 0) by (nonlinear_arith)
        requires
            m * d + q % m == q,
            q % m < m,
            q >= 0,
            m > 0,
    ;
}

/// Accumulates `strided_dot` without overflow.
fn strided_dot_exec(a: &Vec<i32>, ao: usize, b: &Vec<i32>, bo: usize, bs: usize, n: usize) -> (r:
    i128)
    requires
        ao + n <= a@.len(),
        n > 0 ==> bo + (n - 1) * bs < b@.len(),
    ensures
        r == strided_dot(a@, ao as int, b@, bo as int, bs as int, n as nat),
        -(n as int) * prod_bound() <= r <= (n as int) * prod_bound(),
{
    let alen = a.len();
    let blen = b.len();
    let mut acc: i128 = 0;
    let mut l: usize = 0;
    let mut bi: usize = bo;
    while l < n
        invariant
            l <= n,
            alen == a@.len(),
            blen == b@.len(),
            ao + n <= a@.len(),
            n > 0 ==> bo + (n - 1) * bs < b@.len(),
            l < n ==> bi == bo + l * bs,
            acc == strided_dot(a@, ao as int, b@, bo as int, bs as int, l as nat),
            -(l as int) * prod_bound() <= acc <= (l as int) * prod_bound(),
        decreases n - l,
    {
        proof {
            lemma_mul_le_right(l as int, (n - 1) as int, bs as int);
            lemma_mul_i32_bound(a@[ao + l], b@[bi as int]);
        }
        let p = (a[ao + l] as i128) * (b[bi] as i128);
        acc = acc + p;
        l = l + 1;
        if l < n {
            proof {
                lemma_mul_le_right(l as int, (n - 1) as int, bs as int);
                assert(bo + l * bs == bo + (l - 1) * bs + bs) by (nonlinear_arith);
            }
            bi = bi + bs;
        }
    }
    acc
}

/// Dot product of two tensors of equal length, as a one-element tensor.
pub fn dot(inputs: &Vec<&Tensor<i32>>) -> (r: Result<Tensor<i32>, TensorError>)
    requires
        inputs@.len() == 2 && inputs@[0].data().len() == inputs@[1].data().len() ==> fits_i32(
            seq_dot(inputs@[0].data(), inputs@[1].data(), inputs@[0].data().len()),
        ),
    ensures
        r is Ok <==> inputs@.len() == 2 && inputs@[0].data().len() == inputs@[1].data().len(),
        r matches Ok(t) ==> t.wf() && t.shape() == seq![1usize] && t.data() == seq![
            seq_dot(inputs@[0].data(), inputs@[1].data(), inputs@[0].data().len()) as i32,
        ],
        r matches Err(e) ==> is_dim_mismatch(e, "dot"@),
{
    if inputs.len() != 2 || inputs[0].len() != inputs[1].len() {
        return Err(TensorError::DimMismatch("dot".to_string()));
    }
    let a = inputs[0].inner();
    let b = inputs[1].inner();
    let n = a.len();
    let s = strided_dot_exec(a, 0, b, 0, 1, n);
    Ok(scalar(s as i32))
}

/// A one-element tensor of shape `[1]`.
fn scalar(v: i32) -> (t: Tensor<i32>)
    ensures
        t.wf(),
        t.shape() == seq![1usize],
        t.data() == seq![v],
{
    let mut data: Vec<i32> = Vec::new();
    data.push(v);
    let mut dims: Vec<usize> = Vec::new();
    dims.push(1);
    proof {
        assert(dims@.drop_last() =~= Seq::<usize>::empty());
        assert(shape_product(Seq::<usize>::empty()) == 1);
        assert(shape_product(dims@) == 1 * 1);
        assert(data@ =~= seq![v]);
        assert(dims@ =~= seq![1usize]);
    }
    Tensor::from_parts(data, dims)
}

/// A two-dimensional shape `[n, m]`, or `[n]` where `m` is one.
fn matrix_dims(n: usize, m: usize) -> (d: Vec<usize>)
    ensures
        m == 1 ==> d@ == seq![n],
        m != 1 ==> d@ == seq![n, m],
        shape_product(d@) == n * m,
{
    let mut d: Vec<usize> = Vec::new();
    d.push(n);
    proof {
        assert(d@.drop_last() =~= Seq::<usize>::empty());
        assert(shape_product(Seq::<usize>::empty()) == 1);
        assert(shape_product(d@) == 1 * (n as nat));
    }
    if m != 1 {
        let ghost d1 = d@;
        d.push(m);
        proof {
            assert(d@.drop_last() =~= d1);
            assert(d@ =~= seq![n, m]);
        }
    } else {
        assert(d@ =~= seq![n]);
    }
    d
}

// ---------------------------------------------------------------------------
// affine
// ---------------------------------------------------------------------------

/// The number of columns of an affine input: one for a vector.
pub open spec fn affine_cols(x: Tensor<i32>) -> int {
    if x.shape().len() == 1 {
        1
    } else {
        x.shape()[1] as int
    }
}

/// The operands of `affine` have compatible shapes: a `1`- or `2`-dimensional input
/// with as many rows as the `2`-dimensional kernel has columns, and one bias per
/// kernel row.
pub open spec fn affine_shapes_ok(inputs: Seq<Tensor<i32>>) -> bool {
    &&& inputs.len() == 3
    &&& inputs[1].shape().len() == 2
    &&& inputs[2].shape().len() == 1
    &&& (inputs[0].shape().len() == 1 || inputs[0].shape().len() == 2)
    &&& inputs[2].shape()[0] == inputs[1].shape()[0]
    &&& inputs[0].shape()[0] == inputs[1].shape()[1]
}

/// Entry `(i, j)` of `kernel * x + bias`: row `i` of the kernel against column `j` of `x`.
pub open spec fn affine_entry(x: Tensor<i32>, k: Tensor<i32>, b: Tensor<i32>, i: int, j: int) -> int {
    strided_dot(k.data(), i * k.shape()[1], x.data(), j, affine_cols(x), k.shape()[1] as nat)
        + b.data()[i] as int
}

/// What `affine` needs beyond compatible shapes: the output fits in memory and
/// every entry fits in an `i32`.
pub open spec fn affine_in_range(inputs: Seq<Tensor<i32>>) -> bool {
    let n = inputs[1].shape()[0] as int;
    let m = affine_cols(inputs[0]);
    &&& n * m <= usize::MAX
    &&& forall|i: int, j: int|
        0 <= i < n && 0 <= j < m ==> fits_i32(
            #[trigger] affine_entry(inputs[0], inputs[1], inputs[2], i, j),
        )
}

/// Multiplies the kernel (`out x in`) by the input (`in x m`, or a vector of `in`) and
/// adds the bias to each row; a result with one column is returned as a vector.
pub fn affine(inputs: &Vec<Tensor<i32>>) -> (r: Result<Tensor<i32>, TensorError>)
    requires
        forall|i: int| 0 <= i < inputs@.len() ==> (#[trigger] inputs@[i]).wf(),
        affine_shapes_ok(inputs@) ==> affine_in_range(inputs@),
    ensures
        r is Ok <==> affine_shapes_ok(inputs@),
        r matches Err(e) ==> is_dim_mismatch(e, "affine"@),
        r matches Ok(t) ==> {
            let n = inputs@[1].shape()[0] as int;
            let m = affine_cols(inputs@[0]);
            &&& t.wf()
            &&& t.data().len() == n * m
            &&& t.shape() == if m == 1 {
                seq![n as usize]
            } else {
                seq![n as usize, m as usize]
            }
            &&& forall|i: int, j: int|
                0 <= i < n && 0 <= j < m ==> t.data()[i * m + j] == affine_entry(
                    inputs@[0],
                    inputs@[1],
                    inputs@[2],
                    i,
                    j,
                )
        },
{
    if inputs.len() != 3 {
        return Err(TensorError::DimMismatch("affine".to_string()));
    }
    let x = &inputs[0];
    let k = &inputs[1];
    let b = &inputs[2];
    if k.dims().len() != 2 || b.dims().len() != 1 || (x.dims().len() != 1 && x.dims().len() != 2)
        || b.dims()[0] != k.dims()[0] || x.dims()[0] != k.dims()[1] {
        return Err(TensorError::DimMismatch("affine".to_string()));
    }
    let n = k.dims()[0];
    let inc = k.dims()[1];
    let m: usize = if x.dims().len() == 1 {
        1
    } else {
        x.dims()[1]
    };
    proof {
        let ks = k.shape();
        crate::tensor::lemma_product2(ks);
        let xs = x.shape();
        if xs.len() == 1 {
            crate::tensor::lemma_product1(xs);
            assert(x.data().len() == inc * m);
        } else {
            crate::tensor::lemma_product2(xs);
        }
        crate::tensor::lemma_product1(b.shape());
    }
    let total = n * m;
    let kd = k.inner();
    let xd = x.inner();
    let bd = b.inner();
    let klen = kd.len();
    let mut out: Vec<i32> = Vec::new();
    let mut q: usize = 0;
    while q < total
        invariant
            affine_shapes_ok(inputs@),
            affine_in_range(inputs@),
            *x == inputs@[0],
            *k == inputs@[1],
            *b == inputs@[2],
            kd@ == k.data(),
            xd@ == x.data(),
            bd@ == b.data(),
            n == k.shape()[0],
            inc == k.shape()[1],
            m == affine_cols(*x),
            kd@.len() == n * inc,
            klen == kd@.len(),
            xd@.len() == inc * m,
            bd@.len() == n,
            total == n * m,
            q <= total,
            out@.len() == q,
            forall|p: int|
                0 <= p < q ==> out@[p] == affine_entry(*x, *k, *b, p / (m as int), p % (m as int)),
        decreases total - q,
    {
        proof {
            lemma_split2(q as int, n as int, m as int);
        }
        let i = q / m;
        let j = q % m;
        proof {
            lemma_mul_le_right(i + 1, n as int, inc as int);
            assert((i + 1) * inc == i * inc + inc) by (nonlinear_arith);
            if inc > 0 {
                lemma_flat2((inc - 1) as int, j as int, inc as int, m as int);
                assert((inc - 1) * m == ((inc - 1) as int) * m);
            }
        }
        let s = strided_dot_exec(kd, i * inc, xd, j, m, inc);
        let v = s + bd[i] as i128;
        proof {
            assert(v == affine_entry(*x, *k, *b, i as int, j as int));
            assert(fits_i32(affine_entry(*x, *k, *b, i as int, j as int)));
        }
        out.push(v as i32);
        q = q + 1;
    }
    let dims = matrix_dims(n, m);
    let t = Tensor::from_parts(out, dims);
    proof {
        assert forall|i: int, j: int| 0 <= i < n && 0 <= j < m implies t.data()[i * m + j]
            == affine_entry(*x, *k, *b, i, j) by {
            lemma_flat2(i, j, n as int, m as int);
        }
    }
    Ok(t)
}

// ---------------------------------------------------------------------------
// windows over a zero-padded image
// ---------------------------------------------------------------------------

/// Element `(c, y, x)` of a `* x h x w` image padded with `pad_r` zero rows above and
/// below and `pad_c` zero columns to the left and right.
pub open spec fn padded_at(img: Seq<i32>, h: int, w: int, pad_r: int, pad_c: int, c: int, y: int, x: int) -> int {
    if pad_r <= y < h + pad_r && pad_c <= x < w + pad_c {
        img[(c * h + (y - pad_r)) * w + (x - pad_c)] as int
    } else {
        0
    }
}

/// The number of window positions along an axis of length `len`, padded by `pad`
/// on each side, for a window of `k` moved by `stride`.
pub open spec fn slides(len: int, pad: int, k: int, stride: int) -> int {
    (len + 2 * pad - k) / stride + 1
}

/// `sum_{t < n} ker[ko + t] * padded(t / (kh kw), rs + (t / kw) % kh, cs + t % kw)`:
/// a kernel laid out `channel x kh x kw` against the window whose top-left corner is
/// `(rs, cs)`, across all channels.
pub open spec fn conv_window(
    img: Seq<i32>,
    h: int,
    w: int,
    pad_r: int,
    pad_c: int,
    ker: Seq<i32>,
    ko: int,
    kh: int,
    kw: int,
    rs: int,
    cs: int,
    n: nat,
) -> int
    decreases n,
{
    if n == 0 {
        0
    } else {
        let t = n - 1;
        conv_window(img, h, w, pad_r, pad_c, ker, ko, kh, kw, rs, cs, (n - 1) as nat) + (ker[ko
            + t] as int) * padded_at(img, h, w, pad_r, pad_c, t / (kh * kw), rs + (t / kw) % kh, cs + t
            % kw)
    }
}

/// The `t`-th element, in row-major order, of the window of width `kw` at `(rs, cs)`
/// in channel `c`.
pub open spec fn pool_elem(
    img: Seq<i32>,
    h: int,
    w: int,
    pad_r: int,
    pad_c: int,
    c: int,
    kw: int,
    rs: int,
    cs: int,
    t: int,
) -> int {
    padded_at(img, h, w, pad_r, pad_c, c, rs + t / kw, cs + t % kw)
}

/// The sum of the first `n` elements of a pooling window.
pub open spec fn pool_sum(
    img: Seq<i32>,
    h: int,
    w: int,
    pad_r: int,
    pad_c: int,
    c: int,
    kw: int,
    rs: int,
    cs: int,
    n: nat,
) -> int
    decreases n,
{
    if n == 0 {
        0
    } else {
        pool_sum(img, h, w, pad_r, pad_c, c, kw, rs, cs, (n - 1) as nat) + pool_elem(
            img,
            h,
            w,
            pad_r,
            pad_c,
            c,
            kw,
            rs,
            cs,
            n - 1,
        )
    }
}

/// The maximum of the first `n` (at least one) elements of a pooling window.
pub open spec fn pool_max(
    img: Seq<i32>,
    h: int,
    w: int,
    pad_r: int,
    pad_c: int,
    c: int,
    kw: int,
    rs: int,
    cs: int,
    n: nat,
) -> int
    decreases n,
{
    if n <= 1 {
        pool_elem(img, h, w, pad_r, pad_c, c, kw, rs, cs, 0)
    } else {
        let m = pool_max(img, h, w, pad_r, pad_c, c, kw, rs, cs, (n - 1) as nat);
        let v = pool_elem(img, h, w, pad_r, pad_c, c, kw, rs, cs, n - 1);
        if v > m {
            v
        } else {
            m
        }
    }
}

/// Splitting a flat offset below `a * b * c` into its three row-major indices.
proof fn lemma_split3(q: int, a: int, b: int, c: int)
    requires
        0 <= q < a * b * c,
        b > 0,
        c > 0,
    ensures
        0 <= q / (b * c) < a,
        0 <= (q / c) % b < b,
        0 <= q % c < c,
        0 < b * c,
{
    assert(a * b * c == a * (b * c)) by (nonlinear_arith);
    assert(0 < b * c) by (nonlinear_arith)
        requires
            b > 0,
            c > 0,
    ;
    lemma_split2(q, a, b * c);
    lemma_split2(q, a * b, c);
    lemma_fundamental_div_mod(q / c, b);
}

/// Window positions stay inside the padded axis.
proof fn lemma_slide_fits(j: int, d: int, s: int)
    requires
        0 <= j < d / s + 1,
        0 <= d,
        s > 0,
    ensures
        0 <= j * s <= d,
{
    lemma_fundamental_div_mod(d, s);
    assert(j * s <= d) by (nonlinear_arith)
        requires
            0 <= j <= d / s,
            s * (d / s) + d % s == d,
            0 <= d % s,
            s > 0,
    ;
    assert(0 <= j * s) by (nonlinear_arith)
        requires
            0 <= j,
            s > 0,
    ;
}

/// Reads one element of the zero-padded image.
fn padded_value(
    img: &Vec<i32>,
    nch: usize,
    h: usize,
    w: usize,
    pad_r: usize,
    pad_c: usize,
    c: usize,
    y: usize,
    x: usize,
) -> (r: i32)
    requires
        img@.len() == nch * h * w,
        c < nch,
    ensures
        r == padded_at(img@, h as int, w as int, pad_r as int, pad_c as int, c as int, y as int, x as int),
{
    if y >= pad_r && y - pad_r < h && x >= pad_c && x - pad_c < w {
        let yy = y - pad_r;
        let xx = x - pad_c;
        let len = img.len();
        proof {
            lemma_flat2(c as int, yy as int, nch as int, h as int);
            lemma_flat2(c * h + yy, xx as int, nch * h, w as int);
        }
        img[(c * h + yy) * w + xx]
    } else {
        0
    }
}

/// Accumulates `conv_window` over all `nch * kh * kw` kernel elements.
fn conv_window_exec(
    img: &Vec<i32>,
    nch: usize,
    h: usize,
    w: usize,
    pad_r: usize,
    pad_c: usize,
    ker: &Vec<i32>,
    ko: usize,
    kh: usize,
    kw: usize,
    rs: usize,
    cs: usize,
) -> (r: i128)
    requires
        img@.len() == nch * h * w,
        ko + nch * kh * kw <= ker@.len(),
        rs + kh <= h + 2 * pad_r <= usize::MAX,
        cs + kw <= w + 2 * pad_c <= usize::MAX,
    ensures
        r == conv_window(
            img@,
            h as int,
            w as int,
            pad_r as int,
            pad_c as int,
            ker@,
            ko as int,
            kh as int,
            kw as int,
            rs as int,
            cs as int,
            (nch * kh * kw) as nat,
        ),
        -(nch * kh * kw) * prod_bound() <= r <= (nch * kh * kw) * prod_bound(),
{
    let klen = ker.len();
    if nch == 0 || kh == 0 || kw == 0 {
        proof {
            assert(nch * kh * kw == 0) by (nonlinear_arith)
                requires
                    nch == 0 || kh == 0 || kw == 0,
            ;
        }
        return 0;
    }
    proof {
        assert(nch * kh <= nch * kh * kw && kh * kw <= nch * kh * kw) by (nonlinear_arith)
            requires
                nch >= 1,
                kh >= 1,
                kw >= 1,
        ;
    }
    let n = nch * kh * kw;
    let khw = kh * kw;
    let mut acc: i128 = 0;
    let mut t: usize = 0;
    while t < n
        invariant
            img@.len() == nch * h * w,
            klen == ker@.len(),
            ko + n <= ker@.len(),
            rs + kh <= h + 2 * pad_r <= usize::MAX,
            cs + kw <= w + 2 * pad_c <= usize::MAX,
            n == nch * kh * kw,
            khw == kh * kw,
            kh > 0,
            kw > 0,
            t <= n,
            acc == conv_window(
                img@,
                h as int,
                w as int,
                pad_r as int,
                pad_c as int,
                ker@,
                ko as int,
                kh as int,
                kw as int,
                rs as int,
                cs as int,
                t as nat,
            ),
            -(t as int) * prod_bound() <= acc <= (t as int) * prod_bound(),
        decreases n - t,
    {
        proof {
            lemma_split3(t as int, nch as int, kh as int, kw as int);
        }
        let c = t / khw;
        let y = rs + (t / kw) % kh;
        let x = cs + t % kw;
        let v = padded_value(img, nch, h, w, pad_r, pad_c, c, y, x);
        let kv = ker[ko + t];
        proof {
            lemma_mul_i32_bound(kv, v);
        }
        acc = acc + (kv as i128) * (v as i128);
        t = t + 1;
    }
    acc
}

/// The shared geometry of the windowed operations: the window is no larger than the
/// padded image.
pub open spec fn window_geometry_ok(h: int, w: int, padding: (usize, usize), kh: int, kw: int) -> bool {
    &&& kh <= h + 2 * padding.0
    &&& kw <= w + 2 * padding.1
}

/// The image and kernel of `convolution` have compatible shapes: two or three operands,
/// a `C x H x W` image and an `O x C x Kh x Kw` kernel no larger than the padded image.
pub open spec fn conv_core_ok(inputs: Seq<Tensor<i32>>, padding: (usize, usize)) -> bool {
    &&& (inputs.len() == 2 || inputs.len() == 3)
    &&& inputs[0].shape().len() == 3
    &&& inputs[1].shape().len() == 4
    &&& inputs[0].shape()[0] == inputs[1].shape()[1]
    &&& window_geometry_ok(
        inputs[0].shape()[1] as int,
        inputs[0].shape()[2] as int,
        padding,
        inputs[1].shape()[2] as int,
        inputs[1].shape()[3] as int,
    )
}

/// The bias of `convolution`, when a third operand is given, holds one value per output
/// channel.
pub open spec fn conv_bias_ok(inputs: Seq<Tensor<i32>>) -> bool {
    inputs.len() == 3 ==> inputs[2].shape().len() == 1 && inputs[2].shape()[0]
        == inputs[1].shape()[0]
}

/// The operands of `convolution` have compatible shapes, bias included.
pub open spec fn conv_shapes_ok(inputs: Seq<Tensor<i32>>, padding: (usize, usize)) -> bool {
    conv_core_ok(inputs, padding) && conv_bias_ok(inputs)
}

/// Output rows of `convolution`.
pub open spec fn conv_rows(inputs: Seq<Tensor<i32>>, padding: (usize, usize), stride: (usize, usize)) -> int {
    slides(inputs[0].shape()[1] as int, padding.0 as int, inputs[1].shape()[2] as int, stride.0 as int)
}

/// Output columns of `convolution`.
pub open spec fn conv_cols(inputs: Seq<Tensor<i32>>, padding: (usize, usize), stride: (usize, usize)) -> int {
    slides(inputs[0].shape()[2] as int, padding.1 as int, inputs[1].shape()[3] as int, stride.1 as int)
}

/// Element `(o, j, k)` of the convolution: output channel `o`'s kernel against the window
/// at row `j * stride.0` and column `k * stride.1` of the padded image, plus the bias.
pub open spec fn conv_entry(
    inputs: Seq<Tensor<i32>>,
    padding: (usize, usize),
    stride: (usize, usize),
    o: int,
    j: int,
    k: int,
) -> int {
    let img = inputs[0];
    let ker = inputs[1];
    let c = ker.shape()[1] as int;
    let kh = ker.shape()[2] as int;
    let kw = ker.shape()[3] as int;
    conv_window(
        img.data(),
        img.shape()[1] as int,
        img.shape()[2] as int,
        padding.0 as int,
        padding.1 as int,
        ker.data(),
        o * (c * kh * kw),
        kh,
        kw,
        j * stride.0,
        k * stride.1,
        (c * kh * kw) as nat,
    ) + if inputs.len() == 3 {
        inputs[2].data()[o] as int
    } else {
        0
    }
}

/// Element `q` of a row-major `* x rows x cols` output, by its three indices.
pub open spec fn plane_index(q: int, rows: int, cols: int) -> (int, int, int) {
    (q / (rows * cols), (q / cols) % rows, q % cols)
}

/// What `convolution` needs beyond compatible shapes: representable padded extents, an
/// output that fits in memory, and every output element within `i32`.
pub open spec fn conv_in_range(
    inputs: Seq<Tensor<i32>>,
    padding: (usize, usize),
    stride: (usize, usize),
) -> bool {
    let oc = inputs[1].shape()[0] as int;
    let vs = conv_rows(inputs, padding, stride);
    let hs = conv_cols(inputs, padding, stride);
    &&& inputs[0].shape()[1] + 2 * padding.0 <= usize::MAX
    &&& inputs[0].shape()[2] + 2 * padding.1 <= usize::MAX
    &&& vs * hs <= usize::MAX
    &&& oc * vs * hs <= usize::MAX
    &&& forall|o: int, j: int, k: int|
        0 <= o < oc && 0 <= j < vs && 0 <= k < hs ==> fits_i32(
            #[trigger] conv_entry(inputs, padding, stride, o, j, k),
        )
}

/// Convolves a `C x H x W` image with an `O x C x Kh x Kw` kernel after zero-padding it
/// by `padding`, moving the window by `stride`, and adds the optional per-channel bias.
/// The output is `O x rows x cols` with `rows = (H + 2 padding.0 - Kh) / stride.0 + 1`
/// and `cols = (W + 2 padding.1 - Kw) / stride.1 + 1`.
pub fn convolution(
    inputs: &Vec<Tensor<i32>>,
    padding: (usize, usize),
    stride: (usize, usize),
) -> (r: Result<Tensor<i32>, TensorError>)
    requires
        forall|i: int| 0 <= i < inputs@.len() ==> (#[trigger] inputs@[i]).wf(),
        conv_shapes_ok(inputs@, padding) ==> stride.0 > 0 && stride.1 > 0 && conv_in_range(
            inputs@,
            padding,
            stride,
        ),
    ensures
        r is Ok <==> conv_shapes_ok(inputs@, padding),
        r matches Err(e) ==> if conv_core_ok(inputs@, padding) {
            is_dim_mismatch(e, "conv bias"@)
        } else {
            is_dim_mismatch(e, "conv"@)
        },
        r matches Ok(t) ==> {
            let oc = inputs@[1].shape()[0] as int;
            let vs = conv_rows(inputs@, padding, stride);
            let hs = conv_cols(inputs@, padding, stride);
            &&& t.wf()
            &&& t.shape() == seq![oc as usize, vs as usize, hs as usize]
            &&& t.data().len() == oc * vs * hs
            &&& forall|q: int|
                0 <= q < t.data().len() ==> {
                    let (o, j, k) = plane_index(q, vs, hs);
                    #[trigger] t.data()[q] == conv_entry(inputs@, padding, stride, o, j, k)
                }
        },
{
    if inputs.len() != 2 && inputs.len() != 3 {
        return Err(TensorError::DimMismatch("conv".to_string()));
    }
    let image = &inputs[0];
    let kernel = &inputs[1];
    if image.dims().len() != 3 || kernel.dims().len() != 4 || image.dims()[0] != kernel.dims()[1] {
        return Err(TensorError::DimMismatch("conv".to_string()));
    }
    let nch = image.dims()[0];
    let h = image.dims()[1];
    let w = image.dims()[2];
    let oc = kernel.dims()[0];
    let kh = kernel.dims()[2];
    let kw = kernel.dims()[3];
    if !fits_window(h, padding.0, kh) || !fits_window(w, padding.1, kw) {
        return Err(TensorError::DimMismatch("conv".to_string()));
    }
    let has_bias = inputs.len() == 3;
    if has_bias {
        let bias = &inputs[2];
        if bias.dims().len() != 1 || bias.dims()[0] != kernel.dims()[0] {
            return Err(TensorError::DimMismatch("conv bias".to_string()));
        }
    }
    let ph = h + 2 * padding.0;
    let pw = w + 2 * padding.1;
    proof {
        lemma_slides_bounded(ph - kh, stride.0 as int, pw - kw, stride.1 as int);
    }
    let vs = (ph - kh) / stride.0 + 1;
    let hs = (pw - kw) / stride.1 + 1;
    proof {
        assert(oc * vs <= oc * vs * hs) by (nonlinear_arith)
            requires
                hs >= 1,
        ;
        crate::tensor::lemma_product3(image.shape());
        crate::tensor::lemma_product4(kernel.shape());
        if has_bias {
            crate::tensor::lemma_product1(inputs@[2].shape());
        }
        assert(oc * nch * kh * kw == oc * (nch * kh * kw)) by (nonlinear_arith);
    }
    let plane = vs * hs;
    let total = oc * vs * hs;
    let ckk_len = kernel.len();
    let img = image.inner();
    let ker = kernel.inner();
    let mut out: Vec<i32> = Vec::new();
    let mut q: usize = 0;
    while q < total
        invariant
            conv_shapes_ok(inputs@, padding),
            conv_in_range(inputs@, padding, stride),
            stride.0 > 0,
            stride.1 > 0,
            *image == inputs@[0],
            *kernel == inputs@[1],
            has_bias == (inputs@.len() == 3),
            has_bias ==> inputs@[2].data().len() == oc,
            img@ == image.data(),
            ker@ == kernel.data(),
            nch == image.shape()[0],
            h == image.shape()[1],
            w == image.shape()[2],
            oc == kernel.shape()[0],
            kh == kernel.shape()[2],
            kw == kernel.shape()[3],
            ph == h + 2 * padding.0,
            pw == w + 2 * padding.1,
            vs == conv_rows(inputs@, padding, stride),
            hs == conv_cols(inputs@, padding, stride),
            img@.len() == nch * h * w,
            ker@.len() == oc * (nch * kh * kw),
            ckk_len == ker@.len(),
            total == oc * vs * hs,
            plane == vs * hs,
            q <= total,
            out@.len() == q,
            forall|p: int|
                0 <= p < q ==> {
                    let (o, j, k) = plane_index(p, vs as int, hs as int);
                    #[trigger] out@[p] == conv_entry(inputs@, padding, stride, o, j, k)
                },
        decreases total - q,
    {
        proof {
            lemma_split3(q as int, oc as int, vs as int, hs as int);
        }
        let o = q / plane;
        let j = (q / hs) % vs;
        let k = q % hs;
        proof {
            lemma_slide_fits(j as int, (ph - kh) as int, stride.0 as int);
            lemma_slide_fits(k as int, (pw - kw) as int, stride.1 as int);
            assert((o as int) * (nch * kh * kw) + (nch * kh * kw) <= oc * (nch * kh * kw)) by (nonlinear_arith)
                requires
                    0 <= o < oc,
                    0 <= nch * kh * kw,
            ;
            assert(0 <= (o as int) * (nch * kh * kw)) by (nonlinear_arith)
                requires
                    0 <= o,
                    0 <= nch * kh * kw,
            ;
        }
        let ckk = ckk_len / oc;
        proof {
            lemma_fundamental_div_mod_converse(ckk_len as int, oc as int, (nch * kh * kw) as int, 0);
        }
        let rs = j * stride.0;
        let cs = k * stride.1;
        let s = conv_window_exec(img, nch, h, w, padding.0, padding.1, ker, o * ckk, kh, kw, rs, cs);
        let b: i128 = if has_bias {
            inputs[2].inner()[o] as i128
        } else {
            0
        };
        let v = s + b;
        proof {
            assert(v == conv_entry(inputs@, padding, stride, o as int, j as int, k as int));
            assert(fits_i32(conv_entry(inputs@, padding, stride, o as int, j as int, k as int)));
        }
        out.push(v as i32);
        q = q + 1;
    }
    let dims = plane_dims(oc, vs, hs);
    Ok(Tensor::from_parts(out, dims))
}

proof fn lemma_slides_bounded(d0: int, s0: int, d1: int, s1: int)
    requires
        0 <= d0,
        0 <= d1,
        s0 > 0,
        s1 > 0,
        (d0 / s0 + 1) * (d1 / s1 + 1) <= usize::MAX,
    ensures
        d0 / s0 + 1 <= usize::MAX,
        d1 / s1 + 1 <= usize::MAX,
{
    lemma_fundamental_div_mod(d0, s0);
    lemma_fundamental_div_mod(d1, s1);
    assert(d0 / s0 >= 0 && d1 / s1 >= 0) by (nonlinear_arith)
        requires
            s0 * (d0 / s0) + d0 % s0 == d0,
            s1 * (d1 / s1) + d1 % s1 == d1,
            d0 % s0 < s0,
            d1 % s1 < s1,
            0 <= d0,
            0 <= d1,
            s0 > 0,
            s1 > 0,
    ;
    let a = d0 / s0 + 1;
    let b = d1 / s1 + 1;
    assert(a <= a * b && b <= a * b) by (nonlinear_arith)
        requires
            a >= 1,
            b >= 1,
    ;
}

/// A window of `k` fits in an axis of length `len` padded by `pad` on each side.
fn fits_window(len: usize, pad: usize, k: usize) -> (r: bool)
    ensures
        r == (k <= len + 2 * pad),
{
    if k <= len {
        true
    } else {
        let need = k - len;
        need / 2 + need % 2 <= pad
    }
}

/// The shape `[a, b, c]`.
fn plane_dims(a: usize, b: usize, c: usize) -> (d: Vec<usize>)
    ensures
        d@ == seq![a, b, c],
        shape_product(d@) == a * b * c,
{
    let mut d: Vec<usize> = Vec::new();
    d.push(a);
    d.push(b);
    d.push(c);
    proof {
        assert(d@ =~= seq![a, b, c]);
        crate::tensor::lemma_product3(d@);
    }
    d
}

// ---------------------------------------------------------------------------
// pooling and padding
// ---------------------------------------------------------------------------

/// A `C x H x W` image whose window of `pool` fits in the padded image.
pub open spec fn pool_shapes_ok(image: Tensor<i32>, padding: (usize, usize), pool: (usize, usize)) -> bool {
    &&& image.shape().len() == 3
    &&& window_geometry_ok(
        image.shape()[1] as int,
        image.shape()[2] as int,
        padding,
        pool.0 as int,
        pool.1 as int,
    )
}

/// Output rows of a pooling.
pub open spec fn pool_rows(image: Tensor<i32>, padding: (usize, usize), stride: (usize, usize), pool: (usize, usize)) -> int {
    slides(image.shape()[1] as int, padding.0 as int, pool.0 as int, stride.0 as int)
}

/// Output columns of a pooling.
pub open spec fn pool_cols(image: Tensor<i32>, padding: (usize, usize), stride: (usize, usize), pool: (usize, usize)) -> int {
    slides(image.shape()[2] as int, padding.1 as int, pool.1 as int, stride.1 as int)
}

/// What a pooling needs of memory: the padded image and the output fit in it.
pub open spec fn pool_sizes_ok(
    image: Tensor<i32>,
    padding: (usize, usize),
    stride: (usize, usize),
    pool: (usize, usize),
) -> bool {
    let ph = image.shape()[1] + 2 * padding.0;
    let pw = image.shape()[2] + 2 * padding.1;
    let vs = pool_rows(image, padding, stride, pool);
    let hs = pool_cols(image, padding, stride, pool);
    &&& ph <= usize::MAX
    &&& pw <= usize::MAX
    &&& image.shape()[0] * ph * pw <= usize::MAX
    &&& vs * hs <= usize::MAX
    &&& image.shape()[0] * vs * hs <= usize::MAX
}

/// Element `(c, j, k)` of the sum pooling: the sum of the window at row `j * stride.0`
/// and column `k * stride.1` of channel `c` of the padded image.
pub open spec fn sumpool_entry(
    image: Tensor<i32>,
    padding: (usize, usize),
    stride: (usize, usize),
    pool: (usize, usize),
    c: int,
    j: int,
    k: int,
) -> int {
    pool_sum(
        image.data(),
        image.shape()[1] as int,
        image.shape()[2] as int,
        padding.0 as int,
        padding.1 as int,
        c,
        pool.1 as int,
        j * stride.0,
        k * stride.1,
        (pool.0 * pool.1) as nat,
    )
}

/// Element `(c, j, k)` of the max pooling: the largest element of that window.
pub open spec fn maxpool_entry(
    image: Tensor<i32>,
    padding: (usize, usize),
    stride: (usize, usize),
    pool: (usize, usize),
    c: int,
    j: int,
    k: int,
) -> int {
    pool_max(
        image.data(),
        image.shape()[1] as int,
        image.shape()[2] as int,
        padding.0 as int,
        padding.1 as int,
        c,
        pool.1 as int,
        j * stride.0,
        k * stride.1,
        (pool.0 * pool.1) as nat,
    )
}

/// The number of elements in a window, bounded by the padded channel.
proof fn lemma_window_count(nch: int, ph: int, pw: int, kh: int, kw: int)
    requires
        nch >= 1,
        0 <= kh <= ph,
        0 <= kw <= pw,
        nch * ph * pw <= usize::MAX,
    ensures
        kh * kw <= usize::MAX,
{
    assert(kh * kw <= ph * pw) by (nonlinear_arith)
        requires
            0 <= kh <= ph,
            0 <= kw <= pw,
    ;
    assert(ph * pw <= nch * ph * pw) by (nonlinear_arith)
        requires
            nch >= 1,
            0 <= ph,
            0 <= pw,
    ;
}

/// Sums or maximises one pooling window.
fn pool_window_exec(
    img: &Vec<i32>,
    nch: usize,
    h: usize,
    w: usize,
    pad_r: usize,
    pad_c: usize,
    c: usize,
    kh: usize,
    kw: usize,
    rs: usize,
    cs: usize,
    take_max: bool,
) -> (r: i128)
    requires
        img@.len() == nch * h * w,
        c < nch,
        kh * kw <= usize::MAX,
        take_max ==> kh * kw >= 1,
        rs + kh <= h + 2 * pad_r <= usize::MAX,
        cs + kw <= w + 2 * pad_c <= usize::MAX,
    ensures
        !take_max ==> r == pool_sum(
            img@,
            h as int,
            w as int,
            pad_r as int,
            pad_c as int,
            c as int,
            kw as int,
            rs as int,
            cs as int,
            (kh * kw) as nat,
        ),
        take_max ==> r == pool_max(
            img@,
            h as int,
            w as int,
            pad_r as int,
            pad_c as int,
            c as int,
            kw as int,
            rs as int,
            cs as int,
            (kh * kw) as nat,
        ),
        take_max ==> fits_i32(r as int),
{
    let n = kh * kw;
    let mut acc: i128 = 0;
    let mut t: usize = 0;
    if take_max {
        proof {
            lemma_split2(0, kh as int, kw as int);
        }
        acc = padded_value(img, nch, h, w, pad_r, pad_c, c, rs, cs) as i128;
        t = 1;
    }
    while t < n
        invariant
            img@.len() == nch * h * w,
            c < nch,
            n == kh * kw,
            rs + kh <= h + 2 * pad_r <= usize::MAX,
            cs + kw <= w + 2 * pad_c <= usize::MAX,
            take_max ==> 1 <= t,
            t <= n,
            !take_max ==> acc == pool_sum(
                img@,
                h as int,
                w as int,
                pad_r as int,
                pad_c as int,
                c as int,
                kw as int,
                rs as int,
                cs as int,
                t as nat,
            ),
            !take_max ==> -(t as int) * prod_bound() <= acc <= (t as int) * prod_bound(),
            take_max ==> acc == pool_max(
                img@,
                h as int,
                w as int,
                pad_r as int,
                pad_c as int,
                c as int,
                kw as int,
                rs as int,
                cs as int,
                t as nat,
            ),
            take_max ==> fits_i32(acc as int),
        decreases n - t,
    {
        proof {
            lemma_split2(t as int, kh as int, kw as int);
        }
        let y = rs + t / kw;
        let x = cs + t % kw;
        let v = padded_value(img, nch, h, w, pad_r, pad_c, c, y, x) as i128;
        if take_max {
            if v > acc {
                acc = v;
            }
        } else {
            acc = acc + v;
        }
        t = t + 1;
    }
    acc
}

/// Sum pooling over a `C x H x W` image zero-padded by `padding`, with a `pool` window
/// moved by `stride`. The output is `C x rows x cols` as for `convolution`.
pub fn sumpool(
    image: &Tensor<i32>,
    padding: (usize, usize),
    stride: (usize, usize),
    kernel_shape: (usize, usize),
) -> (r: Result<Tensor<i32>, TensorError>)
    requires
        image.wf(),
        pool_shapes_ok(*image, padding, kernel_shape) ==> {
            &&& stride.0 > 0 && stride.1 > 0
            &&& pool_sizes_ok(*image, padding, stride, kernel_shape)
            &&& forall|c: int, j: int, k: int|
                0 <= c < image.shape()[0] && 0 <= j < pool_rows(
                    *image,
                    padding,
                    stride,
                    kernel_shape,
                ) && 0 <= k < pool_cols(*image, padding, stride, kernel_shape) ==> fits_i32(
                    #[trigger] sumpool_entry(*image, padding, stride, kernel_shape, c, j, k),
                )
        },
    ensures
        r is Ok <==> pool_shapes_ok(*image, padding, kernel_shape),
        r matches Err(e) ==> is_dim_mismatch(e, "sumpool"@),
        r matches Ok(t) ==> {
            let vs = pool_rows(*image, padding, stride, kernel_shape);
            let hs = pool_cols(*image, padding, stride, kernel_shape);
            &&& t.wf()
            &&& t.shape() == seq![image.shape()[0], vs as usize, hs as usize]
            &&& t.data().len() == image.shape()[0] * vs * hs
            &&& forall|q: int|
                0 <= q < t.data().len() ==> {
                    let (c, j, k) = plane_index(q, vs, hs);
                    #[trigger] t.data()[q] == sumpool_entry(
                        *image,
                        padding,
                        stride,
                        kernel_shape,
                        c,
                        j,
                        k,
                    )
                }
        },
{
    pool(image, padding, stride, kernel_shape, false)
}

/// Max pooling over a `C x H x W` image zero-padded by `padding`, with a non-empty
/// `pool_dims` window moved by `stride`. The output is `C x rows x cols` as for
/// `convolution`.
pub fn max_pool2d(
    image: &Tensor<i32>,
    padding: (usize, usize),
    stride: (usize, usize),
    pool_dims: (usize, usize),
) -> (r: Result<Tensor<i32>, TensorError>)
    requires
        image.wf(),
        pool_shapes_ok(*image, padding, pool_dims) ==> stride.0 > 0 && stride.1 > 0 && pool_sizes_ok(
            *image,
            padding,
            stride,
            pool_dims,
        ),
    ensures
        r is Ok <==> pool_shapes_ok(*image, padding, pool_dims) && pool_dims.0 > 0 && pool_dims.1
            > 0,
        r matches Err(e) ==> is_dim_mismatch(e, "max_pool2d"@),
        r matches Ok(t) ==> {
            let vs = pool_rows(*image, padding, stride, pool_dims);
            let hs = pool_cols(*image, padding, stride, pool_dims);
            &&& t.wf()
            &&& t.shape() == seq![image.shape()[0], vs as usize, hs as usize]
            &&& t.data().len() == image.shape()[0] * vs * hs
            &&& forall|q: int|
                0 <= q < t.data().len() ==> {
                    let (c, j, k) = plane_index(q, vs, hs);
                    #[trigger] t.data()[q] == maxpool_entry(
                        *image,
                        padding,
                        stride,
                        pool_dims,
                        c,
                        j,
                        k,
                    )
                }
        },
{
    if pool_dims.0 == 0 || pool_dims.1 == 0 {
        return Err(TensorError::DimMismatch("max_pool2d".to_string()));
    }
    pool(image, padding, stride, pool_dims, true)
}

/// The pooling loop shared by `sumpool` and `max_pool2d`.
fn pool(
    image: &Tensor<i32>,
    padding: (usize, usize),
    stride: (usize, usize),
    kernel_shape: (usize, usize),
    take_max: bool,
) -> (r: Result<Tensor<i32>, TensorError>)
    requires
        image.wf(),
        take_max ==> kernel_shape.0 > 0 && kernel_shape.1 > 0,
        pool_shapes_ok(*image, padding, kernel_shape) ==> stride.0 > 0 && stride.1 > 0 && pool_sizes_ok(
            *image,
            padding,
            stride,
            kernel_shape,
        ),
        !take_max && pool_shapes_ok(*image, padding, kernel_shape) ==> forall|c: int, j: int, k: int|
            0 <= c < image.shape()[0] && 0 <= j < pool_rows(*image, padding, stride, kernel_shape)
                && 0 <= k < pool_cols(*image, padding, stride, kernel_shape) ==> fits_i32(
                #[trigger] sumpool_entry(*image, padding, stride, kernel_shape, c, j, k),
            ),
    ensures
        r is Ok <==> pool_shapes_ok(*image, padding, kernel_shape),
        r matches Err(e) ==> is_dim_mismatch(
            e,
            if take_max {
                "max_pool2d"@
            } else {
                "sumpool"@
            },
        ),
        r matches Ok(t) ==> {
            let vs = pool_rows(*image, padding, stride, kernel_shape);
            let hs = pool_cols(*image, padding, stride, kernel_shape);
            &&& t.wf()
            &&& t.shape() == seq![image.shape()[0], vs as usize, hs as usize]
            &&& t.data().len() == image.shape()[0] * vs * hs
            &&& forall|q: int|
                0 <= q < t.data().len() ==> {
                    let (c, j, k) = plane_index(q, vs, hs);
                    &&& !take_max ==> #[trigger] t.data()[q] == sumpool_entry(
                        *image,
                        padding,
                        stride,
                        kernel_shape,
                        c,
                        j,
                        k,
                    )
                    &&& take_max ==> t.data()[q] == maxpool_entry(
                        *image,
                        padding,
                        stride,
                        kernel_shape,
                        c,
                        j,
                        k,
                    )
                }
        },
{
    if image.dims().len() != 3 {
        return Err(TensorError::DimMismatch(
            if take_max {
                "max_pool2d".to_string()
            } else {
                "sumpool".to_string()
            },
        ));
    }
    let nch = image.dims()[0];
    let h = image.dims()[1];
    let w = image.dims()[2];
    let kh = kernel_shape.0;
    let kw = kernel_shape.1;
    if !fits_window(h, padding.0, kh) || !fits_window(w, padding.1, kw) {
        return Err(TensorError::DimMismatch(
            if take_max {
                "max_pool2d".to_string()
            } else {
                "sumpool".to_string()
            },
        ));
    }
    let ph = h + 2 * padding.0;
    let pw = w + 2 * padding.1;
    proof {
        lemma_slides_bounded(ph - kh, stride.0 as int, pw - kw, stride.1 as int);
    }
    let vs = (ph - kh) / stride.0 + 1;
    let hs = (pw - kw) / stride.1 + 1;
    proof {
        crate::tensor::lemma_product3(image.shape());
    }
    let plane = vs * hs;
    proof {
        assert(nch * vs * hs == nch * (vs * hs)) by (nonlinear_arith);
    }
    let total = nch * plane;
    let img = image.inner();
    let mut out: Vec<i32> = Vec::new();
    let mut q: usize = 0;
    while q < total
        invariant
            pool_shapes_ok(*image, padding, kernel_shape),
            pool_sizes_ok(*image, padding, stride, kernel_shape),
            !take_max ==> forall|c: int, j: int, k: int|
                0 <= c < image.shape()[0] && 0 <= j < pool_rows(
                    *image,
                    padding,
                    stride,
                    kernel_shape,
                ) && 0 <= k < pool_cols(*image, padding, stride, kernel_shape) ==> fits_i32(
                    #[trigger] sumpool_entry(*image, padding, stride, kernel_shape, c, j, k),
                ),
            take_max ==> kh > 0 && kw > 0,
            stride.0 > 0,
            stride.1 > 0,
            img@ == image.data(),
            nch == image.shape()[0],
            h == image.shape()[1],
            w == image.shape()[2],
            kh == kernel_shape.0,
            kw == kernel_shape.1,
            ph == h + 2 * padding.0,
            pw == w + 2 * padding.1,
            vs == pool_rows(*image, padding, stride, kernel_shape),
            hs == pool_cols(*image, padding, stride, kernel_shape),
            img@.len() == nch * h * w,
            plane == vs * hs,
            total == nch * vs * hs,
            q <= total,
            out@.len() == q,
            forall|p: int|
                0 <= p < q ==> {
                    let (c, j, k) = plane_index(p, vs as int, hs as int);
                    &&& !take_max ==> #[trigger] out@[p] == sumpool_entry(
                        *image,
                        padding,
                        stride,
                        kernel_shape,
                        c,
                        j,
                        k,
                    )
                    &&& take_max ==> out@[p] == maxpool_entry(
                        *image,
                        padding,
                        stride,
                        kernel_shape,
                        c,
                        j,
                        k,
                    )
                },
        decreases total - q,
    {
        proof {
            lemma_split3(q as int, nch as int, vs as int, hs as int);
        }
        let c = q / plane;
        let j = (q / hs) % vs;
        let k = q % hs;
        proof {
            lemma_slide_fits(j as int, (ph - kh) as int, stride.0 as int);
            lemma_slide_fits(k as int, (pw - kw) as int, stride.1 as int);
            lemma_window_count(nch as int, ph as int, pw as int, kh as int, kw as int);
            if take_max {
                assert(kh * kw >= 1) by (nonlinear_arith)
                    requires
                        kh >= 1,
                        kw >= 1,
                ;
            }
        }
        let rs = j * stride.0;
        let cs = k * stride.1;
        let v = pool_window_exec(img, nch, h, w, padding.0, padding.1, c, kh, kw, rs, cs, take_max);
        proof {
            if !take_max {
                assert(v == sumpool_entry(*image, padding, stride, kernel_shape, c as int, j as int, k as int));
                assert(fits_i32(sumpool_entry(*image, padding, stride, kernel_shape, c as int, j as int, k as int)));
            }
        }
        out.push(v as i32);
        q = q + 1;
    }
    let dims = plane_dims(nch, vs, hs);
    Ok(Tensor::from_parts(out, dims))
}

/// Pads each channel of a `C x H x W` image with `padding.0` zero rows above and below
/// and `padding.1` zero columns left and right.
pub fn pad(image: &Tensor<i32>, padding: (usize, usize)) -> (r: Result<Tensor<i32>, TensorError>)
    requires
        image.wf(),
        image.shape().len() == 3 ==> {
            let ph = image.shape()[1] + 2 * padding.0;
            let pw = image.shape()[2] + 2 * padding.1;
            ph <= usize::MAX && pw <= usize::MAX && image.shape()[0] * ph * pw <= usize::MAX
        },
    ensures
        r is Ok <==> image.shape().len() == 3,
        r matches Err(e) ==> is_dim_mismatch(e, "pad"@),
        r matches Ok(t) ==> {
            let h = image.shape()[1] as int;
            let w = image.shape()[2] as int;
            let ph = h + 2 * padding.0;
            let pw = w + 2 * padding.1;
            &&& t.wf()
            &&& t.shape() == seq![image.shape()[0], ph as usize, pw as usize]
            &&& t.data().len() == image.shape()[0] * ph * pw
            &&& forall|q: int|
                0 <= q < t.data().len() ==> {
                    let (c, y, x) = plane_index(q, ph, pw);
                    #[trigger] t.data()[q] == padded_at(
                        image.data(),
                        h,
                        w,
                        padding.0 as int,
                        padding.1 as int,
                        c,
                        y,
                        x,
                    )
                }
        },
{
    if image.dims().len() != 3 {
        return Err(TensorError::DimMismatch("pad".to_string()));
    }
    let nch = image.dims()[0];
    let h = image.dims()[1];
    let w = image.dims()[2];
    let ph = h + 2 * padding.0;
    let pw = w + 2 * padding.1;
    proof {
        crate::tensor::lemma_product3(image.shape());
        assert(nch * ph * pw == nch * (ph * pw)) by (nonlinear_arith);
    }
    let total = if nch == 0 || ph == 0 || pw == 0 {
        proof {
            assert(nch * ph * pw == 0) by (nonlinear_arith)
                requires
                    nch == 0 || ph == 0 || pw == 0,
            ;
        }
        0
    } else {
        proof {
            assert(nch * ph <= nch * ph * pw) by (nonlinear_arith)
                requires
                    pw >= 1,
            ;
        }
        nch * ph * pw
    };
    let img = image.inner();
    let mut out: Vec<i32> = Vec::new();
    let mut q: usize = 0;
    while q < total
        invariant
            img@ == image.data(),
            img@.len() == nch * h * w,
            nch == image.shape()[0],
            h == image.shape()[1],
            w == image.shape()[2],
            ph == h + 2 * padding.0,
            pw == w + 2 * padding.1,
            total == nch * ph * pw,
            total == nch * (ph * pw),
            q <= total,
            out@.len() == q,
            forall|p: int|
                0 <= p < q ==> {
                    let (c, y, x) = plane_index(p, ph as int, pw as int);
                    #[trigger] out@[p] == padded_at(
                        image.data(),
                        h as int,
                        w as int,
                        padding.0 as int,
                        padding.1 as int,
                        c,
                        y,
                        x,
                    )
                },
        decreases total - q,
    {
        proof {
            lemma_split3(q as int, nch as int, ph as int, pw as int);
            assert(ph * pw <= total) by (nonlinear_arith)
                requires
                    total == nch * (ph * pw),
                    q < total,
                    0 <= ph * pw,
            ;
        }
        let c = q / (ph * pw);
        let y = (q / pw) % ph;
        let x = q % pw;
        let v = padded_value(img, nch, h, w, padding.0, padding.1, c, y, x);
        out.push(v);
        q = q + 1;
    }
    let dims = plane_dims(nch, ph, pw);
    Ok(Tensor::from_parts(out, dims))
}

// ---------------------------------------------------------------------------
// matmul
// ---------------------------------------------------------------------------

/// The operands of `matmul` have compatible shapes: equal ranks of at least two, equal
/// leading (batch) dimensions, and `(m x k) . (k x n)` in the last two.
pub open spec fn matmul_shapes_ok(inputs: Seq<Tensor<i32>>) -> bool {
    let r = inputs[0].shape().len();
    &&& inputs.len() == 2
    &&& r >= 2
    &&& inputs[1].shape().len() == r
    &&& inputs[0].shape()[r - 1] == inputs[1].shape()[r - 2]
    &&& inputs[0].shape().subrange(0, r - 2) == inputs[1].shape().subrange(0, r - 2)
}

/// The number of matrices in a batch: the product of the leading dimensions.
pub open spec fn batch_count(a: Tensor<i32>) -> int {
    shape_product(a.shape().subrange(0, a.shape().len() - 2)) as int
}

/// Entry `(i, j)` of the product of matrix `bt` of `a` (`m x k`) and of `b` (`k x n`).
pub open spec fn matmul_entry(a: Tensor<i32>, b: Tensor<i32>, bt: int, i: int, j: int) -> int {
    let r = a.shape().len();
    let m = a.shape()[r - 2] as int;
    let k = a.shape()[r - 1] as int;
    let n = b.shape()[r - 1] as int;
    strided_dot(a.data(), (bt * m + i) * k, b.data(), bt * k * n + j, n, k as nat)
}

/// A shape of at least two dimensions, by its leading part and its last two extents.
proof fn lemma_product_split_last2(s: Seq<usize>)
    requires
        s.len() >= 2,
    ensures
        shape_product(s) == shape_product(s.subrange(0, s.len() - 2)) * s[s.len() - 2] * s[s.len()
            - 1],
{
    let d = s.drop_last();
    assert(d.drop_last() =~= s.subrange(0, s.len() - 2));
    assert(shape_product(s) == shape_product(d) * (s.last() as nat));
    assert(shape_product(d) == shape_product(d.drop_last()) * (d.last() as nat));
    assert(d.last() == s[s.len() - 2]);
}

/// The product of the first `n` extents, computed without overflow.
fn prefix_product(dims: &Vec<usize>, n: usize) -> (r: usize)
    requires
        n <= dims@.len(),
        shape_product(dims@.subrange(0, n as int)) <= usize::MAX,
    ensures
        r == shape_product(dims@.subrange(0, n as int)),
{
    let ghost p = dims@.subrange(0, n as int);
    let mut i: usize = 0;
    while i < n
        invariant
            n <= dims@.len(),
            p == dims@.subrange(0, n as int),
            i <= n,
            forall|k: int| 0 <= k < i ==> dims@[k] >= 1,
        decreases n - i,
    {
        if dims[i] == 0 {
            proof {
                crate::tensor::lemma_product_zero(p, i as int);
            }
            return 0;
        }
        i = i + 1;
    }
    assert(crate::tensor::no_zero_extent(p));
    let mut prod: usize = 1;
    let mut j: usize = 0;
    assert(p.subrange(0, 0) =~= Seq::<usize>::empty());
    while j < n
        invariant
            n <= dims@.len(),
            p == dims@.subrange(0, n as int),
            crate::tensor::no_zero_extent(p),
            shape_product(p) <= usize::MAX,
            j <= n,
            prod == shape_product(p.subrange(0, j as int)),
        decreases n - j,
    {
        proof {
            crate::tensor::lemma_prefix_product_le(p, j + 1);
            assert(p.subrange(0, j + 1).drop_last() =~= p.subrange(0, j as int));
        }
        prod = prod * dims[j];
        j = j + 1;
    }
    assert(p.subrange(0, n as int) =~= p);
    prod
}

/// Relies on itertools' `multi_cartesian_product`: over the ranges `0..a`, `0..b` and
/// `0..c` it yields every index triple exactly once, in row-major order (the last index
/// fastest), and nothing when a range is empty.
#[verifier::external_body]
fn index_grid(a: usize, b: usize, c: usize) -> (r: Vec<(usize, usize, usize)>)
    requires
        a * b * c <= usize::MAX,
    ensures
        r@.len() == a * b * c,
        forall|q: int|
            0 <= q < r@.len() ==> #[trigger] r@[q] == plane_index_usize(q, b as int, c as int),
{
    vec![0..a, 0..b, 0..c].into_iter().multi_cartesian_product().map(|v| (v[0], v[1], v[2])).collect()
}

/// `plane_index` as a triple of `usize`.
pub open spec fn plane_index_usize(q: int, rows: int, cols: int) -> (usize, usize, usize) {
    let (x, y, z) = plane_index(q, rows, cols);
    (x as usize, y as usize, z as usize)
}

/// What `matmul` needs beyond compatible shapes: the output fits in memory and every
/// entry fits in an `i32`.
pub open spec fn matmul_in_range(inputs: Seq<Tensor<i32>>) -> bool {
    let r = inputs[0].shape().len();
    let bc = batch_count(inputs[0]);
    let m = inputs[0].shape()[r - 2] as int;
    let n = inputs[1].shape()[r - 1] as int;
    &&& bc * m * n <= usize::MAX
    &&& forall|bt: int, i: int, j: int|
        0 <= bt < bc && 0 <= i < m && 0 <= j < n ==> fits_i32(
            #[trigger] matmul_entry(inputs[0], inputs[1], bt, i, j),
        )
}

/// Batched matrix product: over each index of the leading dimensions, the `m x k`
/// matrix of the first operand times the `k x n` matrix of the second. The output has
/// the leading dimensions followed by `m, n`.
pub fn matmul(inputs: &Vec<Tensor<i32>>) -> (r: Result<Tensor<i32>, TensorError>)
    requires
        forall|i: int| 0 <= i < inputs@.len() ==> (#[trigger] inputs@[i]).wf(),
        matmul_shapes_ok(inputs@) ==> matmul_in_range(inputs@),
    ensures
        r is Ok <==> matmul_shapes_ok(inputs@),
        r matches Err(e) ==> is_dim_mismatch(e, "matmul"@),
        r matches Ok(t) ==> {
            let a = inputs@[0];
            let b = inputs@[1];
            let rk = a.shape().len();
            let m = a.shape()[rk - 2] as int;
            let n = b.shape()[rk - 1] as int;
            &&& t.wf()
            &&& t.shape() == a.shape().subrange(0, rk - 2).push(m as usize).push(n as usize)
            &&& t.data().len() == batch_count(a) * m * n
            &&& forall|q: int|
                0 <= q < t.data().len() ==> {
                    let (bt, i, j) = plane_index(q, m, n);
                    #[trigger] t.data()[q] == matmul_entry(a, b, bt, i, j)
                }
        },
{
    if inputs.len() != 2 {
        return Err(TensorError::DimMismatch("matmul".to_string()));
    }
    let a = &inputs[0];
    let b = &inputs[1];
    let ad = a.dims();
    let bd = b.dims();
    let rk = ad.len();
    if rk < 2 || bd.len() != rk || ad[rk - 1] != bd[rk - 2] {
        return Err(TensorError::DimMismatch("matmul".to_string()));
    }
    let mut l: usize = 0;
    while l < rk - 2
        invariant
            rk == ad@.len(),
            rk == bd@.len(),
            ad@ == inputs@[0].shape(),
            bd@ == inputs@[1].shape(),
            inputs@.len() == 2,
            rk >= 2,
            l <= rk - 2,
            forall|z: int| 0 <= z < l ==> ad@[z] == bd@[z],
        decreases rk - 2 - l,
    {
        if ad[l] != bd[l] {
            proof {
                assert(ad@.subrange(0, rk - 2)[l as int] != bd@.subrange(0, rk - 2)[l as int]);
                assert(ad@.subrange(0, rk - 2) != bd@.subrange(0, rk - 2));
            }
            return Err(TensorError::DimMismatch("matmul".to_string()));
        }
        l = l + 1;
    }
    proof {
        assert(ad@.subrange(0, rk - 2) =~= bd@.subrange(0, rk - 2));
    }
    let m = ad[rk - 2];
    let k = ad[rk - 1];
    let n = bd[rk - 1];
    proof {
        lemma_product_split_last2(a.shape());
        lemma_product_split_last2(b.shape());
    }
    let ghost bc = batch_count(*a);
    let mut dims: Vec<usize> = Vec::new();
    let mut z: usize = 0;
    while z < rk - 2
        invariant
            rk == ad@.len(),
            rk >= 2,
            z <= rk - 2,
            dims@ == ad@.subrange(0, z as int),
        decreases rk - 2 - z,
    {
        dims.push(ad[z]);
        z = z + 1;
    }
    let ghost lead = dims@;
    dims.push(m);
    dims.push(n);
    proof {
        assert(dims@.drop_last().drop_last() =~= lead);
        assert(lead =~= ad@.subrange(0, rk - 2));
    }
    let (count, total): (usize, usize) = if m == 0 || n == 0 {
        proof {
            assert(bc * m * n == 0) by (nonlinear_arith)
                requires
                    m == 0 || n == 0,
            ;
            assert(0 * m * n == 0) by (nonlinear_arith);
        }
        (0, 0)
    } else {
        proof {
            assert(bc <= bc * m * n && bc * m <= bc * m * n) by (nonlinear_arith)
                requires
                    m >= 1,
                    n >= 1,
                    bc >= 0,
            ;
        }
        let count = prefix_product(ad, rk - 2);
        (count, count * m * n)
    };
    let grid = index_grid(count, m, n);
    let adata = a.inner();
    let bdata = b.inner();
    let alen = adata.len();
    let blen = bdata.len();
    let mut out: Vec<i32> = Vec::new();
    let mut q: usize = 0;
    while q < total
        invariant
            matmul_shapes_ok(inputs@),
            matmul_in_range(inputs@),
            *a == inputs@[0],
            *b == inputs@[1],
            rk == a.shape().len(),
            rk >= 2,
            m == a.shape()[rk - 2],
            k == a.shape()[rk - 1],
            n == b.shape()[rk - 1],
            bc == batch_count(*a),
            adata@ == a.data(),
            bdata@ == b.data(),
            alen == adata@.len(),
            blen == bdata@.len(),
            adata@.len() == bc * m * k,
            bdata@.len() == bc * k * n,
            total == bc * m * n,
            grid@.len() == total,
            forall|p: int|
                0 <= p < grid@.len() ==> #[trigger] grid@[p] == plane_index_usize(p, m as int, n as int),
            q <= total,
            out@.len() == q,
            forall|p: int|
                0 <= p < q ==> {
                    let (bt, i, j) = plane_index(p, m as int, n as int);
                    #[trigger] out@[p] == matmul_entry(*a, *b, bt, i, j)
                },
        decreases total - q,
    {
        proof {
            lemma_split3(q as int, bc, m as int, n as int);
            assert(m * n <= bc * m * n && bc * m <= bc * m * n ) by (nonlinear_arith)
                requires
                    q < total,
                    total == bc * m * n,
                    0 <= q,
                    0 <= bc,
                    0 <= m,
                    0 <= n,
            ;
        }
        let (bt, i, j) = grid[q];
        proof {
            assert(bt * m + i < bc * m) by (nonlinear_arith)
                requires
                    0 <= bt < bc,
                    0 <= i < m,
            ;
            assert((bt * m + i) * k + k <= bc * m * k) by (nonlinear_arith)
                requires
                    0 <= bt * m + i < bc * m,
                    0 <= k,
            ;
            assert(0 <= (bt * m + i) * k) by (nonlinear_arith)
                requires
                    0 <= bt,
                    0 <= i,
                    0 <= m,
                    0 <= k,
            ;
            if k > 0 {
                assert((bt * k + (k - 1)) * n + j < bc * k * n) by (nonlinear_arith)
                    requires
                        0 <= bt < bc,
                        0 <= j < n,
                        k >= 1,
                ;
                assert(bt * k * n + j + (k - 1) * n == (bt * k + (k - 1)) * n + j) by (nonlinear_arith);
            } else {
                assert(bt * k * n == 0) by (nonlinear_arith)
                    requires
                        k == 0,
                ;
            }
            assert(0 <= bt * k * n) by (nonlinear_arith)
                requires
                    0 <= bt,
                    0 <= k,
                    0 <= n,
            ;
            assert(bt * k * n <= bc * k * n) by (nonlinear_arith)
                requires
                    0 <= bt < bc,
                    0 <= k,
                    0 <= n,
            ;
            assert(bt * m <= bt * m + i && bt * k <= bt * k * n) by (nonlinear_arith)
                requires
                    0 <= bt,
                    0 <= i,
                    0 <= m,
                    0 <= k,
                    n >= 1,
            ;
        }
        let arow = (bt * m + i) * k;
        let bcol = bt * k * n + j;
        let s = strided_dot_exec(adata, arow, bdata, bcol, n, k);
        proof {
            assert(s == matmul_entry(*a, *b, bt as int, i as int, j as int));
            assert(fits_i32(matmul_entry(*a, *b, bt as int, i as int, j as int)));
        }
        out.push(s as i32);
        q = q + 1;
    }
    proof {
        lemma_product_split_last2(dims@);
        assert(dims@.subrange(0, dims@.len() - 2) =~= lead);
    }
    Ok(Tensor::from_parts(out, dims))
}

// ---------------------------------------------------------------------------
// elementwise arithmetic
// ---------------------------------------------------------------------------

/// Element `i` of `t[0] + t[1] + ... + t[n - 1]`.
pub open spec fn sum_over(t: Seq<Tensor<i32>>, n: nat, i: int) -> int
    decreases n,
{
    if n <= 1 {
        t[0].data()[i] as int
    } else {
        sum_over(t, (n - 1) as nat, i) + t[n - 1].data()[i] as int
    }
}

/// Element `i` of `t[0] - t[1] - ... - t[n - 1]`.
pub open spec fn diff_over(t: Seq<Tensor<i32>>, n: nat, i: int) -> int
    decreases n,
{
    if n <= 1 {
        t[0].data()[i] as int
    } else {
        diff_over(t, (n - 1) as nat, i) - t[n - 1].data()[i] as int
    }
}

/// Element `i` of `t[0] * t[1] * ... * t[n - 1]`.
pub open spec fn prod_over(t: Seq<Tensor<i32>>, n: nat, i: int) -> int
    decreases n,
{
    if n <= 1 {
        t[0].data()[i] as int
    } else {
        prod_over(t, (n - 1) as nat, i) * t[n - 1].data()[i] as int
    }
}

/// Two operands whose second has shape `[1]`: it acts as a constant.
pub open spec fn is_scalar_operand(t: Seq<Tensor<i32>>) -> bool {
    t.len() == 2 && t[1].shape() == seq![1usize]
}

/// At least one operand, and all of the first one's shape.
pub open spec fn same_shapes(t: Seq<Tensor<i32>>) -> bool {
    t.len() >= 1 && forall|e: int| 0 <= e < t.len() ==> (#[trigger] t[e]).shape() == t[0].shape()
}

/// Which fold an elementwise operation performs.
enum Combine {
    Add,
    Sub,
    Mul,
}

spec fn combine_over(t: Seq<Tensor<i32>>, n: nat, i: int, op: Combine) -> int {
    match op {
        Combine::Add => sum_over(t, n, i),
        Combine::Sub => diff_over(t, n, i),
        Combine::Mul => prod_over(t, n, i),
    }
}

/// Folds equally shaped operands element by element. Sums and differences are
/// accumulated in `i128`, which `n` terms of `i32` cannot overflow; products need
/// every partial product within `i32`.
fn combine(t: &Vec<Tensor<i32>>, op: Combine) -> (r: Tensor<i32>)
    requires
        forall|e: int| 0 <= e < t@.len() ==> (#[trigger] t@[e]).wf(),
        same_shapes(t@),
        op != Combine::Mul ==> forall|i: int|
            0 <= i < t@[0].data().len() ==> fits_i32(#[trigger] combine_over(t@, t@.len(), i, op)),
        op == Combine::Mul ==> forall|n: nat, i: int|
            1 <= n <= t@.len() && 0 <= i < t@[0].data().len() ==> fits_i32(
                #[trigger] prod_over(t@, n, i),
            ),
    ensures
        r.wf(),
        r.shape() == t@[0].shape(),
        r.data().len() == t@[0].data().len(),
        forall|i: int| 0 <= i < r.data().len() ==> #[trigger] r.data()[i] == combine_over(t@, t@.len(), i, op),
{
    let len = t[0].len();
    let count = t.len();
    let mut out: Vec<i32> = Vec::new();
    let mut i: usize = 0;
    while i < len
        invariant
            forall|e: int| 0 <= e < t@.len() ==> (#[trigger] t@[e]).wf(),
            same_shapes(t@),
            op != Combine::Mul ==> forall|i: int|
                0 <= i < t@[0].data().len() ==> fits_i32(#[trigger] combine_over(t@, t@.len(), i, op)),
            op == Combine::Mul ==> forall|n: nat, i: int|
                1 <= n <= t@.len() && 0 <= i < t@[0].data().len() ==> fits_i32(
                    #[trigger] prod_over(t@, n, i),
                ),
            len == t@[0].data().len(),
            count == t@.len(),
            i <= len,
            out@.len() == i,
            forall|p: int| 0 <= p < i ==> #[trigger] out@[p] == combine_over(t@, t@.len(), p, op),
        decreases len - i,
    {
        let mut acc: i128 = t[0].inner()[i] as i128;
        let mut e: usize = 1;
        while e < count
            invariant
                forall|e: int| 0 <= e < t@.len() ==> (#[trigger] t@[e]).wf(),
                same_shapes(t@),
                op == Combine::Mul ==> forall|n: nat, i: int|
                    1 <= n <= t@.len() && 0 <= i < t@[0].data().len() ==> fits_i32(
                        #[trigger] prod_over(t@, n, i),
                    ),
                len == t@[0].data().len(),
                count == t@.len(),
                i < len,
                1 <= e <= count,
                acc == combine_over(t@, e as nat, i as int, op),
                op != Combine::Mul ==> -(e as int) * 0x8000_0000 <= acc <= (e as int) * 0x8000_0000,
                op == Combine::Mul ==> fits_i32(acc as int),
            decreases count - e,
        {
            let ghost te = t@[e as int];
            assert(te.shape() == t@[0].shape());
            let v = t[e].inner()[i] as i128;
            match op {
                Combine::Add => {
                    acc = acc + v;
                },
                Combine::Sub => {
                    acc = acc - v;
                },
                Combine::Mul => {
                    proof {
                        assert(fits_i32(prod_over(t@, (e + 1) as nat, i as int)));
                    }
                    acc = acc * v;
                },
            }
            e = e + 1;
        }
        out.push(acc as i32);
        i = i + 1;
    }
    Tensor::from_parts(out, t[0].dims().clone())
}

/// Applies `f(x, b)` to each element with a constant `b`.
fn with_constant(a: &Tensor<i32>, b: i32, op: Combine) -> (r: Tensor<i32>)
    requires
        a.wf(),
        forall|i: int|
            0 <= i < a.data().len() ==> fits_i32(#[trigger] constant_result(a.data()[i] as int, b as int, op)),
    ensures
        r.wf(),
        r.shape() == a.shape(),
        r.data().len() == a.data().len(),
        forall|i: int|
            0 <= i < r.data().len() ==> #[trigger] r.data()[i] == constant_result(
                a.data()[i] as int,
                b as int,
                op,
            ),
{
    let len = a.len();
    let mut out: Vec<i32> = Vec::new();
    let mut i: usize = 0;
    while i < len
        invariant
            a.wf(),
            forall|i: int|
                0 <= i < a.data().len() ==> fits_i32(#[trigger] constant_result(a.data()[i] as int, b as int, op)),
            len == a.data().len(),
            i <= len,
            out@.len() == i,
            forall|p: int|
                0 <= p < i ==> #[trigger] out@[p] == constant_result(a.data()[p] as int, b as int, op),
        decreases len - i,
    {
        let ai = *a.get(i);
        let x = ai as i128;
        let y = b as i128;
        proof {
            lemma_mul_i32_bound(ai, b);
        }
        let v = match op {
            Combine::Add => x + y,
            Combine::Sub => x - y,
            Combine::Mul => x * y,
        };
        proof {
            assert(fits_i32(constant_result(a.data()[i as int] as int, b as int, op)));
        }
        out.push(v as i32);
        i = i + 1;
    }
    Tensor::from_parts(out, a.dims().clone())
}

spec fn constant_result(x: int, b: int, op: Combine) -> int {
    match op {
        Combine::Add => x + b,
        Combine::Sub => x - b,
        Combine::Mul => x * b,
    }
}

/// Adds equally shaped tensors elementwise; a second operand of shape `[1]` is
/// added to every element instead.
pub fn add(t: &Vec<Tensor<i32>>) -> (r: Result<Tensor<i32>, TensorError>)
    requires
        forall|e: int| 0 <= e < t@.len() ==> (#[trigger] t@[e]).wf(),
        is_scalar_operand(t@) ==> forall|i: int|
            0 <= i < t@[0].data().len() ==> fits_i32(
                #[trigger] (t@[0].data()[i] as int) + (t@[1].data()[0] as int),
            ),
        !is_scalar_operand(t@) && same_shapes(t@) ==> forall|i: int|
            0 <= i < t@[0].data().len() ==> fits_i32(#[trigger] sum_over(t@, t@.len(), i)),
    ensures
        r is Ok <==> is_scalar_operand(t@) || same_shapes(t@),
        r matches Err(e) ==> is_dim_mismatch(e, "add"@),
        r matches Ok(out) ==> {
            &&& out.wf()
            &&& out.shape() == t@[0].shape()
            &&& out.data().len() == t@[0].data().len()
            &&& forall|i: int|
                0 <= i < out.data().len() ==> #[trigger] out.data()[i] == if is_scalar_operand(t@) {
                    (t@[0].data()[i] as int) + (t@[1].data()[0] as int)
                } else {
                    sum_over(t@, t@.len(), i)
                }
        },
{
    if t.len() == 2 && t[1].dims().len() == 1 && t[1].dims()[0] == 1 {
        proof {
            assert(t@[1].shape() =~= seq![1usize]);
            crate::tensor::lemma_product1(t@[1].shape());
        }
        let b = *t[1].get(0);
        return const_add(&t[0], b);
    }
    if t.len() == 0 {
        return Err(TensorError::DimMismatch("add".to_string()));
    }
    proof {
        assert(!is_scalar_operand(t@)) by {
            if is_scalar_operand(t@) {
                assert(t@[1].shape().len() == 1 && t@[1].shape()[0] == 1);
            }
        }
    }
    let mut e: usize = 0;
    while e < t.len()
        invariant
            !is_scalar_operand(t@),
            t@.len() >= 1,
            e <= t@.len(),
            forall|k: int| 0 <= k < e ==> (#[trigger] t@[k]).shape() == t@[0].shape(),
        decreases t@.len() - e,
    {
        if !same_dims(t[0].dims(), t[e].dims()) {
            proof {
                assert(t@[e as int].shape() != t@[0].shape());
            }
            return Err(TensorError::DimMismatch("add".to_string()));
        }
        e = e + 1;
    }
    proof {
        assert(!is_scalar_operand(t@)) by {
            if is_scalar_operand(t@) {
                assert(t@[1].shape().len() == 1 && t@[1].shape()[0] == 1);
            }
        }
    }
    Ok(combine(t, Combine::Add))
}

/// Subtracts the second and later tensors from the first, elementwise; a second
/// operand of shape `[1]` is subtracted from every element instead.
pub fn sub(t: &Vec<Tensor<i32>>) -> (r: Result<Tensor<i32>, TensorError>)
    requires
        forall|e: int| 0 <= e < t@.len() ==> (#[trigger] t@[e]).wf(),
        is_scalar_operand(t@) ==> forall|i: int|
            0 <= i < t@[0].data().len() ==> fits_i32(
                #[trigger] (t@[0].data()[i] as int) - (t@[1].data()[0] as int),
            ),
        !is_scalar_operand(t@) && same_shapes(t@) ==> forall|i: int|
            0 <= i < t@[0].data().len() ==> fits_i32(#[trigger] diff_over(t@, t@.len(), i)),
    ensures
        r is Ok <==> is_scalar_operand(t@) || same_shapes(t@),
        r matches Err(e) ==> is_dim_mismatch(e, "sub"@),
        r matches Ok(out) ==> {
            &&& out.wf()
            &&& out.shape() == t@[0].shape()
            &&& out.data().len() == t@[0].data().len()
            &&& forall|i: int|
                0 <= i < out.data().len() ==> #[trigger] out.data()[i] == if is_scalar_operand(t@) {
                    (t@[0].data()[i] as int) - (t@[1].data()[0] as int)
                } else {
                    diff_over(t@, t@.len(), i)
                }
        },
{
    if t.len() == 2 && t[1].dims().len() == 1 && t[1].dims()[0] == 1 {
        proof {
            assert(t@[1].shape() =~= seq![1usize]);
            crate::tensor::lemma_product1(t@[1].shape());
        }
        let b = *t[1].get(0);
        return const_sub(&t[0], b);
    }
    if t.len() == 0 {
        return Err(TensorError::DimMismatch("sub".to_string()));
    }
    proof {
        assert(!is_scalar_operand(t@)) by {
            if is_scalar_operand(t@) {
                assert(t@[1].shape().len() == 1 && t@[1].shape()[0] == 1);
            }
        }
    }
    let mut e: usize = 0;
    while e < t.len()
        invariant
            !is_scalar_operand(t@),
            t@.len() >= 1,
            e <= t@.len(),
            forall|k: int| 0 <= k < e ==> (#[trigger] t@[k]).shape() == t@[0].shape(),
        decreases t@.len() - e,
    {
        if !same_dims(t[0].dims(), t[e].dims()) {
            proof {
                assert(t@[e as int].shape() != t@[0].shape());
            }
            return Err(TensorError::DimMismatch("sub".to_string()));
        }
        e = e + 1;
    }
    proof {
        assert(!is_scalar_operand(t@)) by {
            if is_scalar_operand(t@) {
                assert(t@[1].shape().len() == 1 && t@[1].shape()[0] == 1);
            }
        }
    }
    Ok(combine(t, Combine::Sub))
}

/// Multiplies equally shaped tensors elementwise; a second operand of shape `[1]`
/// multiplies every element instead. Each partial product must fit in an `i32`.
pub fn mult(t: &Vec<Tensor<i32>>) -> (r: Result<Tensor<i32>, TensorError>)
    requires
        forall|e: int| 0 <= e < t@.len() ==> (#[trigger] t@[e]).wf(),
        is_scalar_operand(t@) ==> forall|i: int|
            0 <= i < t@[0].data().len() ==> fits_i32(
                #[trigger] (t@[0].data()[i] as int) * (t@[1].data()[0] as int),
            ),
        !is_scalar_operand(t@) && same_shapes(t@) ==> forall|n: nat, i: int|
            1 <= n <= t@.len() && 0 <= i < t@[0].data().len() ==> fits_i32(
                #[trigger] prod_over(t@, n, i),
            ),
    ensures
        r is Ok <==> is_scalar_operand(t@) || same_shapes(t@),
        r matches Err(e) ==> is_dim_mismatch(e, "mult"@),
        r matches Ok(out) ==> {
            &&& out.wf()
            &&& out.shape() == t@[0].shape()
            &&& out.data().len() == t@[0].data().len()
            &&& forall|i: int|
                0 <= i < out.data().len() ==> #[trigger] out.data()[i] == if is_scalar_operand(t@) {
                    (t@[0].data()[i] as int) * (t@[1].data()[0] as int)
                } else {
                    prod_over(t@, t@.len(), i)
                }
        },
{
    if t.len() == 2 && t[1].dims().len() == 1 && t[1].dims()[0] == 1 {
        proof {
            assert(t@[1].shape() =~= seq![1usize]);
            crate::tensor::lemma_product1(t@[1].shape());
        }
        let b = *t[1].get(0);
        return const_mult(&t[0], b);
    }
    if t.len() == 0 {
        return Err(TensorError::DimMismatch("mult".to_string()));
    }
    proof {
        assert(!is_scalar_operand(t@)) by {
            if is_scalar_operand(t@) {
                assert(t@[1].shape().len() == 1 && t@[1].shape()[0] == 1);
            }
        }
    }
    let mut e: usize = 0;
    while e < t.len()
        invariant
            !is_scalar_operand(t@),
            t@.len() >= 1,
            e <= t@.len(),
            forall|k: int| 0 <= k < e ==> (#[trigger] t@[k]).shape() == t@[0].shape(),
        decreases t@.len() - e,
    {
        if !same_dims(t[0].dims(), t[e].dims()) {
            proof {
                assert(t@[e as int].shape() != t@[0].shape());
            }
            return Err(TensorError::DimMismatch("mult".to_string()));
        }
        e = e + 1;
    }
    proof {
        assert(!is_scalar_operand(t@)) by {
            if is_scalar_operand(t@) {
                assert(t@[1].shape().len() == 1 && t@[1].shape()[0] == 1);
            }
        }
    }
    Ok(combine(t, Combine::Mul))
}

/// Adds the constant `b` to every element.
pub fn const_add(a: &Tensor<i32>, b: i32) -> (r: Result<Tensor<i32>, TensorError>)
    requires
        a.wf(),
        forall|i: int| 0 <= i < a.data().len() ==> fits_i32(#[trigger] (a.data()[i] as int) + (b as int)),
    ensures
        r matches Ok(out) && out.wf() && out.shape() == a.shape() && out.data().len() == a.data().len()
            && forall|i: int|
            0 <= i < out.data().len() ==> #[trigger] out.data()[i] == (a.data()[i] as int) + (b as int),
{
    proof {
        assert forall|i: int| 0 <= i < a.data().len() implies fits_i32(
            #[trigger] constant_result(a.data()[i] as int, b as int, Combine::Add),
        ) by {
            assert(fits_i32((a.data()[i] as int) + (b as int)));
        }
    }
    let out = with_constant(a, b, Combine::Add);
    Ok(out)
}

/// Subtracts the constant `b` from every element.
pub fn const_sub(a: &Tensor<i32>, b: i32) -> (r: Result<Tensor<i32>, TensorError>)
    requires
        a.wf(),
        forall|i: int| 0 <= i < a.data().len() ==> fits_i32(#[trigger] (a.data()[i] as int) - (b as int)),
    ensures
        r matches Ok(out) && out.wf() && out.shape() == a.shape() && out.data().len() == a.data().len()
            && forall|i: int|
            0 <= i < out.data().len() ==> #[trigger] out.data()[i] == (a.data()[i] as int) - (b as int),
{
    proof {
        assert forall|i: int| 0 <= i < a.data().len() implies fits_i32(
            #[trigger] constant_result(a.data()[i] as int, b as int, Combine::Sub),
        ) by {
            assert(fits_i32((a.data()[i] as int) - (b as int)));
        }
    }
    let out = with_constant(a, b, Combine::Sub);
    Ok(out)
}

/// Multiplies every element by the constant `b`.
pub fn const_mult(a: &Tensor<i32>, b: i32) -> (r: Result<Tensor<i32>, TensorError>)
    requires
        a.wf(),
        forall|i: int| 0 <= i < a.data().len() ==> fits_i32(#[trigger] (a.data()[i] as int) * (b as int)),
    ensures
        r matches Ok(out) && out.wf() && out.shape() == a.shape() && out.data().len() == a.data().len()
            && forall|i: int|
            0 <= i < out.data().len() ==> #[trigger] out.data()[i] == (a.data()[i] as int) * (b as int),
{
    proof {
        assert forall|i: int| 0 <= i < a.data().len() implies fits_i32(
            #[trigger] constant_result(a.data()[i] as int, b as int, Combine::Mul),
        ) by {
            assert(fits_i32((a.data()[i] as int) * (b as int)));
        }
    }
    let out = with_constant(a, b, Combine::Mul);
    Ok(out)
}

/// Whether two shapes are equal.
pub(crate) fn same_dims(a: &Vec<usize>, b: &Vec<usize>) -> (r: bool)
    ensures
        r == (a@ == b@),
{
    if a.len() != b.len() {
        return false;
    }
    let mut i: usize = 0;
    while i < a.len()
        invariant
            a@.len() == b@.len(),
            i <= a@.len(),
            forall|k: int| 0 <= k < i ==> a@[k] == b@[k],
        decreases a@.len() - i,
    {
        if a[i] != b[i] {
            return false;
        }
        i = i + 1;
    }
    assert(a@ =~= b@);
    true
}

// ---------------------------------------------------------------------------
// division, scaling, powers, sums
// ---------------------------------------------------------------------------

/// The magnitude of `a`.
pub open spec fn abs(a: int) -> int {
    if a < 0 {
        -a
    } else {
        a
    }
}

/// Integer division rounding toward zero.
pub open spec fn trunc_div(a: int, b: int) -> int {
    let q = abs(a) / abs(b);
    if (a < 0) == (b < 0) {
        q
    } else {
        -q
    }
}

/// `x` raised to the power `e`.
pub open spec fn int_pow(x: int, e: nat) -> int
    decreases e,
{
    if e == 0 {
        1
    } else {
        x * int_pow(x, (e - 1) as nat)
    }
}

/// The sum of the first `n` elements.
pub open spec fn seq_sum(s: Seq<i32>, n: nat) -> int
    decreases n,
{
    if n == 0 {
        0
    } else {
        seq_sum(s, (n - 1) as nat) + s[n - 1] as int
    }
}

/// Divides `t` by `d` elementwise, rounding toward zero.
pub fn div(t: Tensor<i32>, d: Tensor<i32>) -> (r: Result<Tensor<i32>, TensorError>)
    requires
        t.wf(),
        d.wf(),
        t.shape() == d.shape() ==> forall|i: int|
            0 <= i < t.data().len() ==> #[trigger] d.data()[i] != 0 && fits_i32(
                trunc_div(t.data()[i] as int, d.data()[i] as int),
            ),
    ensures
        r is Ok <==> t.shape() == d.shape(),
        r matches Err(e) ==> is_dim_mismatch(e, "div"@),
        r matches Ok(out) ==> {
            &&& out.wf()
            &&& out.shape() == t.shape()
            &&& out.data().len() == t.data().len()
            &&& forall|i: int|
                0 <= i < out.data().len() ==> #[trigger] out.data()[i] == trunc_div(
                    t.data()[i] as int,
                    d.data()[i] as int,
                )
        },
{
    if !same_dims(t.dims(), d.dims()) {
        return Err(TensorError::DimMismatch("div".to_string()));
    }
    let len = t.len();
    let mut out: Vec<i32> = Vec::new();
    let mut i: usize = 0;
    while i < len
        invariant
            t.wf(),
            d.wf(),
            t.shape() == d.shape(),
            forall|i: int|
                0 <= i < t.data().len() ==> #[trigger] d.data()[i] != 0 && fits_i32(
                    trunc_div(t.data()[i] as int, d.data()[i] as int),
                ),
            len == t.data().len(),
            len == d.data().len(),
            i <= len,
            out@.len() == i,
            forall|p: int|
                0 <= p < i ==> #[trigger] out@[p] == trunc_div(t.data()[p] as int, d.data()[p] as int),
        decreases len - i,
    {
        let a = *t.get(i) as i64;
        let b = *d.get(i) as i64;
        proof {
            assert(d.data()[i as int] != 0);
        }
        let aa: i64 = if a < 0 {
            -a
        } else {
            a
        };
        let bb: i64 = if b < 0 {
            -b
        } else {
            b
        };
        let q = aa / bb;
        let v: i64 = if (a < 0) == (b < 0) {
            q
        } else {
            -q
        };
        proof {
            assert(v == trunc_div(t.data()[i as int] as int, d.data()[i as int] as int));
        }
        out.push(v as i32);
        i = i + 1;
    }
    Ok(Tensor::from_parts(out, t.dims().clone()))
}

/// The operands of `scale_and_shift` are three tensors of one shape.
pub open spec fn scale_shift_shapes_ok(inputs: Seq<Tensor<i32>>) -> bool {
    &&& inputs.len() == 3
    &&& inputs[1].shape() == inputs[2].shape()
    &&& inputs[0].shape() == inputs[1].shape()
}

/// Computes `k * x + b` elementwise for the operands `(x, k, b)`.
pub fn scale_and_shift(inputs: &Vec<Tensor<i32>>) -> (r: Result<Tensor<i32>, TensorError>)
    requires
        forall|i: int| 0 <= i < inputs@.len() ==> (#[trigger] inputs@[i]).wf(),
        scale_shift_shapes_ok(inputs@) ==> forall|i: int|
            0 <= i < inputs@[0].data().len() ==> fits_i32(
                #[trigger] (inputs@[1].data()[i] as int) * (inputs@[0].data()[i] as int) + (
                inputs@[2].data()[i] as int),
            ),
    ensures
        r is Ok <==> scale_shift_shapes_ok(inputs@),
        r matches Err(e) ==> is_dim_mismatch(e, "scale and shift"@),
        r matches Ok(out) ==> {
            &&& out.wf()
            &&& out.shape() == inputs@[0].shape()
            &&& out.data().len() == inputs@[0].data().len()
            &&& forall|i: int|
                0 <= i < out.data().len() ==> #[trigger] out.data()[i] == (inputs@[1].data()[i] as int)
                    * (inputs@[0].data()[i] as int) + (inputs@[2].data()[i] as int)
        },
{
    if inputs.len() != 3 || !same_dims(inputs[1].dims(), inputs[2].dims()) || !same_dims(
        inputs[0].dims(),
        inputs[1].dims(),
    ) {
        return Err(TensorError::DimMismatch("scale and shift".to_string()));
    }
    let x = &inputs[0];
    let k = &inputs[1];
    let b = &inputs[2];
    let len = x.len();
    let mut out: Vec<i32> = Vec::new();
    let mut i: usize = 0;
    while i < len
        invariant
            x.wf(),
            k.wf(),
            b.wf(),
            *x == inputs@[0],
            *k == inputs@[1],
            *b == inputs@[2],
            scale_shift_shapes_ok(inputs@),
            forall|i: int|
                0 <= i < inputs@[0].data().len() ==> fits_i32(
                    #[trigger] (inputs@[1].data()[i] as int) * (inputs@[0].data()[i] as int) + (
                    inputs@[2].data()[i] as int),
                ),
            len == x.data().len(),
            len == k.data().len(),
            len == b.data().len(),
            i <= len,
            out@.len() == i,
            forall|p: int|
                0 <= p < i ==> #[trigger] out@[p] == (k.data()[p] as int) * (x.data()[p] as int) + (
                b.data()[p] as int),
        decreases len - i,
    {
        let xi = *x.get(i);
        let ki = *k.get(i);
        proof {
            lemma_mul_i32_bound(ki, xi);
        }
        let v = (ki as i128) * (xi as i128) + (*b.get(i) as i128);
        proof {
            assert(fits_i32((k.data()[i as int] as int) * (x.data()[i as int] as int) + (
            b.data()[i as int] as int)));
        }
        out.push(v as i32);
        i = i + 1;
    }
    Ok(Tensor::from_parts(out, x.dims().clone()))
}

/// Multiplies every element by `mult`.
pub fn rescale(a: &Tensor<i32>, mult: usize) -> (r: Result<Tensor<i32>, TensorError>)
    requires
        a.wf(),
        forall|i: int|
            0 <= i < a.data().len() ==> fits_i32(#[trigger] (a.data()[i] as int) * (mult as int)),
    ensures
        r matches Ok(out) && out.wf() && out.shape() == a.shape() && out.data().len() == a.data().len()
            && forall|i: int|
            0 <= i < out.data().len() ==> #[trigger] out.data()[i] == (a.data()[i] as int)
                * (mult as int),
{
    let factor = mult as i128;
    let len = a.len();
    let mut out: Vec<i32> = Vec::new();
    let mut i: usize = 0;
    while i < len
        invariant
            a.wf(),
            forall|i: int|
                0 <= i < a.data().len() ==> fits_i32(#[trigger] (a.data()[i] as int) * (mult as int)),
            factor == (mult as int),
            len == a.data().len(),
            i <= len,
            out@.len() == i,
            forall|p: int|
                0 <= p < i ==> #[trigger] out@[p] == (a.data()[p] as int) * (mult as int),
        decreases len - i,
    {
        let x = *a.get(i) as i128;
        proof {
            assert(-0x8000_0000 * 0x1_0000_0000_0000_0000 <= x * factor <= 0x8000_0000
                * 0x1_0000_0000_0000_0000) by (nonlinear_arith)
                requires
                    -0x8000_0000 <= x <= 0x8000_0000,
                    0 <= factor <= 0x1_0000_0000_0000_0000,
            ;
            assert(fits_i32((a.data()[i as int] as int) * (mult as int)));
        }
        let v = x * factor;
        out.push(v as i32);
        i = i + 1;
    }
    Ok(Tensor::from_parts(out, a.dims().clone()))
}

/// Powers of a base no further from zero than the whole power stay within its bound.
proof fn lemma_pow_abs_mono(x: int, k: nat, e: nat)
    requires
        1 <= k <= e,
    ensures
        abs(int_pow(x, k)) <= abs(int_pow(x, e)),
    decreases e - k,
{
    if k < e {
        lemma_pow_abs_mono(x, k, (e - 1) as nat);
        let y = int_pow(x, (e - 1) as nat);
        if x == 0 {
            assert(int_pow(x, e) == 0);
            lemma_pow_zero_base(k);
        } else {
            assert(abs(x * y) >= abs(y)) by (nonlinear_arith)
                requires
                    x != 0,
            ;
        }
    }
}

proof fn lemma_pow_zero_base(k: nat)
    requires
        k >= 1,
    ensures
        int_pow(0, k) == 0,
{
}

/// Raises every element to the power `power`; the power zero gives one.
pub fn pow(a: &Tensor<i32>, power: usize) -> (r: Result<Tensor<i32>, TensorError>)
    requires
        a.wf(),
        forall|i: int|
            0 <= i < a.data().len() ==> fits_i32(#[trigger] int_pow(a.data()[i] as int, (power as nat))),
    ensures
        r matches Ok(out) && out.wf() && out.shape() == a.shape() && out.data().len() == a.data().len()
            && forall|i: int|
            0 <= i < out.data().len() ==> #[trigger] out.data()[i] == int_pow(
                a.data()[i] as int,
                (power as nat),
            ),
{
    let e = power;
    let len = a.len();
    let mut out: Vec<i32> = Vec::new();
    let mut i: usize = 0;
    while i < len
        invariant
            a.wf(),
            forall|i: int|
                0 <= i < a.data().len() ==> fits_i32(#[trigger] int_pow(a.data()[i] as int, (power as nat))),
            e == power,
            len == a.data().len(),
            i <= len,
            out@.len() == i,
            forall|p: int|
                0 <= p < i ==> #[trigger] out@[p] == int_pow(a.data()[p] as int, (power as nat)),
        decreases len - i,
    {
        let x = *a.get(i);
        let ghost xi = x as int;
        assert(fits_i32(int_pow(xi, e as nat)));
        let mut acc: i64 = 1;
        let mut k: usize = 0;
        assert(int_pow(xi, 0) == 1);
        while k < e
            invariant
                k <= e,
                xi == x as int,
                fits_i32(int_pow(xi, e as nat)),
                acc == int_pow(xi, k as nat),
                abs(acc as int) <= 0x8000_0000,
            decreases e - k,
        {
            proof {
                lemma_pow_abs_mono(xi, (k + 1) as nat, e as nat);
                assert(int_pow(xi, (k + 1) as nat) == xi * int_pow(xi, k as nat));
                let next = int_pow(xi, (k + 1) as nat);
                assert(abs(next) <= 0x8000_0000);
                assert((acc as int) * xi == next) by (nonlinear_arith)
                    requires
                        acc == int_pow(xi, k as nat),
                        next == xi * int_pow(xi, k as nat),
                ;
            }
            acc = acc * (x as i64);
            k = k + 1;
        }
        out.push(acc as i32);
        i = i + 1;
    }
    Ok(Tensor::from_parts(out, a.dims().clone()))
}

/// The sum of all elements, as a one-element tensor.
pub fn sum(a: &Tensor<i32>) -> (r: Result<Tensor<i32>, TensorError>)
    requires
        a.wf(),
        fits_i32(seq_sum(a.data(), a.data().len())),
    ensures
        r matches Ok(t) && t.wf() && t.shape() == seq![1usize] && t.data() == seq![
            seq_sum(a.data(), a.data().len()) as i32,
        ],
{
    let len = a.len();
    let mut acc: i128 = 0;
    let mut i: usize = 0;
    while i < len
        invariant
            len == a.data().len(),
            i <= len,
            acc == seq_sum(a.data(), i as nat),
            -(i as int) * 0x8000_0000 <= acc <= (i as int) * 0x8000_0000,
        decreases len - i,
    {
        acc = acc + *a.get(i) as i128;
        i = i + 1;
    }
    Ok(scalar(acc as i32))
}

// ---------------------------------------------------------------------------
// convolution without padding
// ---------------------------------------------------------------------------

/// `sum_{t < n} ker[ko + t] * img[c][j + y][k + x]` with `(c, y, x)` the row-major
/// indices of `t` in a `* x kh x kw` kernel: the window at `(j, k)` of the unpadded
/// image.
pub open spec fn sliding_window_dot(
    img: Seq<i32>,
    h: int,
    w: int,
    ker: Seq<i32>,
    ko: int,
    kh: int,
    kw: int,
    j: int,
    k: int,
    n: nat,
) -> int
    decreases n,
{
    if n == 0 {
        0
    } else {
        let t = n - 1;
        let c = t / (kh * kw);
        let y = (t / kw) % kh;
        let x = t % kw;
        sliding_window_dot(img, h, w, ker, ko, kh, kw, j, k, (n - 1) as nat) + (ker[ko + t] as int)
            * (img[(c * h + (j + y)) * w + (k + x)] as int)
    }
}

proof fn lemma_conv_window_unpadded(
    img: Seq<i32>,
    h: int,
    w: int,
    ker: Seq<i32>,
    ko: int,
    kh: int,
    kw: int,
    j: int,
    k: int,
    n: nat,
)
    requires
        kh > 0,
        kw > 0,
        0 <= j,
        j + kh <= h,
        0 <= k,
        k + kw <= w,
    ensures
        conv_window(img, h, w, 0, 0, ker, ko, kh, kw, j, k, n) == sliding_window_dot(
            img,
            h,
            w,
            ker,
            ko,
            kh,
            kw,
            j,
            k,
            n,
        ),
    decreases n,
{
    if n > 0 {
        lemma_conv_window_unpadded(img, h, w, ker, ko, kh, kw, j, k, (n - 1) as nat);
        let t = n - 1;
        lemma_fundamental_div_mod(t / kw, kh);
        lemma_fundamental_div_mod(t as int, kw);
        assert(0 <= (t / kw) % kh < kh);
        assert(0 <= t % kw < kw);
    }
}

/// Without padding and with unit strides, every convolution output is the kernel's dot
/// product with the window of the image itself: output `(o, j, k)` multiplies kernel `o`
/// with the window whose top-left corner is row `j`, column `k`, plus the bias.
pub proof fn lemma_convolution_unpadded(inputs: Seq<Tensor<i32>>, o: int, j: int, k: int)
    requires
        conv_shapes_ok(inputs, (0, 0)),
        0 <= j < conv_rows(inputs, (0, 0), (1, 1)),
        0 <= k < conv_cols(inputs, (0, 0), (1, 1)),
    ensures
        conv_rows(inputs, (0, 0), (1, 1)) == inputs[0].shape()[1] - inputs[1].shape()[2] + 1,
        conv_cols(inputs, (0, 0), (1, 1)) == inputs[0].shape()[2] - inputs[1].shape()[3] + 1,
        ({
            let img = inputs[0];
            let ker = inputs[1];
            let c = ker.shape()[1] as int;
            let kh = ker.shape()[2] as int;
            let kw = ker.shape()[3] as int;
            conv_entry(inputs, (0, 0), (1, 1), o, j, k) == sliding_window_dot(
                img.data(),
                img.shape()[1] as int,
                img.shape()[2] as int,
                ker.data(),
                o * (c * kh * kw),
                kh,
                kw,
                j,
                k,
                (c * kh * kw) as nat,
            ) + if inputs.len() == 3 {
                inputs[2].data()[o] as int
            } else {
                0
            }
        }),
{
    let img = inputs[0];
    let ker = inputs[1];
    let c = ker.shape()[1] as int;
    let kh = ker.shape()[2] as int;
    let kw = ker.shape()[3] as int;
    assert(j * 1 == j && k * 1 == k);
    if kh > 0 && kw > 0 {
        lemma_conv_window_unpadded(
            img.data(),
            img.shape()[1] as int,
            img.shape()[2] as int,
            ker.data(),
            o * (c * kh * kw),
            kh,
            kw,
            j,
            k,
            (c * kh * kw) as nat,
        );
    } else {
        assert(c * kh * kw == 0) by (nonlinear_arith)
            requires
                kh == 0 || kw == 0,
        ;
    }
}

/// A vector input and the same elements reshaped to one column are the same affine
/// operand: both are accepted or rejected together, give a one-column result (returned
/// as a vector), and agree on every entry.
pub proof fn lemma_affine_column_vector(x: Tensor<i32>, xc: Tensor<i32>, k: Tensor<i32>, b: Tensor<i32>)
    requires
        x.shape().len() == 1,
        xc.data() == x.data(),
        xc.shape() == seq![x.shape()[0], 1usize],
    ensures
        affine_shapes_ok(seq![x, k, b]) == affine_shapes_ok(seq![xc, k, b]),
        affine_cols(x) == 1 && affine_cols(xc) == 1,
        forall|i: int| #[trigger] affine_entry(x, k, b, i, 0) == affine_entry(xc, k, b, i, 0),
{
}

} // verus!
