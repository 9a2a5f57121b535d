//! An n-dimensional array stored flat in row-major order.

use vstd::prelude::*;

pub mod nonlinearities;
pub mod ops;

verus! {

/// The number of elements that a shape describes.
pub open spec fn shape_product(s: Seq<usize>) -> nat
    decreases s.len(),
{
    if s.len() == 0 {
        1
    } else {
        shape_product(s.drop_last()) * (s.last() as nat)
    }
}

/// Every extent of the shape is at least one.
pub open spec fn no_zero_extent(s: Seq<usize>) -> bool {
    forall|i: int| 0 <= i < s.len() ==> s[i] >= 1
}

/// Over positive extents, the product of a prefix bounds the product of the whole.
pub proof fn lemma_prefix_product_le(s: Seq<usize>, n: int)
    requires
        0 <= n <= s.len(),
        no_zero_extent(s),
    ensures
        shape_product(s.subrange(0, n)) <= shape_product(s),
        shape_product(s.subrange(0, n)) >= 1,
    decreases s.len() - n,
{
    if n == s.len() {
        assert(s.subrange(0, n) =~= s);
        lemma_product_positive(s);
    } else {
        lemma_prefix_product_le(s, n + 1);
        let p = s.subrange(0, n + 1);
        assert(p.drop_last() =~= s.subrange(0, n));
        let a = shape_product(s.subrange(0, n));
        let b = s[n] as nat;
        assert(a * b >= a) by (nonlinear_arith)
            requires
                b >= 1,
        ;
        assert(a >= 1) by (nonlinear_arith)
            requires
                a * b >= 1,
                b >= 1,
        ;
    }
}

/// Over positive extents the product is positive.
pub proof fn lemma_product_positive(s: Seq<usize>)
    requires
        no_zero_extent(s),
    ensures
        shape_product(s) >= 1,
    decreases s.len(),
{
    if s.len() > 0 {
        let d = s.drop_last();
        assert(no_zero_extent(d));
        lemma_product_positive(d);
        let a = shape_product(d);
        let b = s.last() as nat;
        assert(a * b >= 1) by (nonlinear_arith)
            requires
                a >= 1,
                b >= 1,
        ;
    }
}

/// The product of a one-dimensional shape.
pub proof fn lemma_product1(s: Seq<usize>)
    requires
        s.len() == 1,
    ensures
        shape_product(s) == s[0],
{
    assert(s.drop_last() =~= Seq::<usize>::empty());
    assert(shape_product(Seq::<usize>::empty()) == 1);
    assert(shape_product(s) == 1 * (s[0] as nat));
}

/// The product of a two-dimensional shape.
pub proof fn lemma_product2(s: Seq<usize>)
    requires
        s.len() == 2,
    ensures
        shape_product(s) == s[0] * s[1],
{
    lemma_product1(s.drop_last());
}

/// The product of a three-dimensional shape.
pub proof fn lemma_product3(s: Seq<usize>)
    requires
        s.len() == 3,
    ensures
        shape_product(s) == s[0] * s[1] * s[2],
{
    lemma_product2(s.drop_last());
}

/// The product of a four-dimensional shape.
pub proof fn lemma_product4(s: Seq<usize>)
    requires
        s.len() == 4,
    ensures
        shape_product(s) == s[0] * s[1] * s[2] * s[3],
{
    lemma_product3(s.drop_last());
}

/// Errors of the tensor layer.
#[derive(Debug, Clone, PartialEq, Eq)]
pub enum TensorError {
    /// The shapes of the operands do not fit the operation that is named.
    DimMismatch(String),
}

/// `e` reports a shape mismatch in the operation named `op`.
pub open spec fn is_dim_mismatch(e: TensorError, op: Seq<char>) -> bool {
    e matches TensorError::DimMismatch(s) && s@ == op
}

/// A tensor: its elements in row-major order and its shape.
#[derive(Debug, Clone, PartialEq, Eq)]
pub struct Tensor<T> {
    inner: Vec<T>,
    dims: Vec<usize>,
}

impl<T> Tensor<T> {
    /// The elements, in row-major order.
    pub closed spec fn data(&self) -> Seq<T> {
        self.inner@
    }

    /// The extent of each dimension.
    pub closed spec fn shape(&self) -> Seq<usize> {
        self.dims@
    }

    /// The tensor's value: its elements and its shape.
    pub open spec fn model(&self) -> (Seq<T>, Seq<usize>) {
        (self.data(), self.shape())
    }

    /// The number of elements agrees with the shape.
    pub open spec fn wf(&self) -> bool {
        self.data().len() == shape_product(self.shape())
    }

    /// Builds a tensor from elements and a shape; fails when their sizes differ.
    pub fn new(values: Vec<T>, dims: Vec<usize>) -> (r: Result<Tensor<T>, TensorError>)
        ensures
            values@.len() == shape_product(dims@) <==> r is Ok,
            r matches Ok(t) ==> t.wf() && t.data() == values@ && t.shape() == dims@,
            r matches Err(e) ==> is_dim_mismatch(e, "tensor"@),
    {
        let len = values.len();
        if product_equals(&dims, len) {
            Ok(Tensor { inner: values, dims })
        } else {
            Err(TensorError::DimMismatch("tensor".to_string()))
        }
    }

    /// Builds a tensor from parts already known to agree.
    pub fn from_parts(values: Vec<T>, dims: Vec<usize>) -> (t: Tensor<T>)
        requires
            values@.len() == shape_product(dims@),
        ensures
            t.wf(),
            t.data() == values@,
            t.shape() == dims@,
    {
        Tensor { inner: values, dims }
    }

    /// The shape.
    pub fn dims(&self) -> (r: &Vec<usize>)
        ensures
            r@ == self.shape(),
    {
        &self.dims
    }

    /// The elements in row-major order.
    pub fn inner(&self) -> (r: &Vec<T>)
        ensures
            r@ == self.data(),
    {
        &self.inner
    }

    /// The number of elements.
    pub fn len(&self) -> (r: usize)
        ensures
            r == self.data().len(),
    {
        self.inner.len()
    }

    /// The element at a flat (row-major) offset.
    pub fn get(&self, i: usize) -> (r: &T)
        requires
            i < self.data().len(),
        ensures
            *r == self.data()[i as int],
    {
        &self.inner[i]
    }

    /// Replaces the element at a flat offset.
    pub fn set(&mut self, i: usize, v: T)
        requires
            i < old(self).data().len(),
        ensures
            final(self).data() == old(self).data().update(i as int, v),
            final(self).shape() == old(self).shape(),
    {
        self.inner.set(i, v);
    }

    /// Reinterprets the elements under another shape of the same size.
    pub fn reshape(&mut self, new_dims: &[usize])
        requires
            shape_product(new_dims@) == old(self).data().len(),
        ensures
            final(self).wf(),
            final(self).model() == reshape_model(old(self).model(), new_dims@),
            final(self).data() == old(self).data(),
            final(self).shape() == new_dims@,
    {
        let mut d: Vec<usize> = Vec::new();
        let mut i: usize = 0;
        while i < new_dims.len()
            invariant
                i <= new_dims@.len(),
                d@ == new_dims@.subrange(0, i as int),
            decreases new_dims@.len() - i,
        {
            d.push(new_dims[i]);
            i = i + 1;
        }
        assert(d@ =~= new_dims@);
        self.dims = d;
    }

    /// Reinterprets the elements as a one-dimensional tensor.
    pub fn flatten(&mut self)
        ensures
            final(self).wf(),
            final(self).data() == old(self).data(),
            final(self).shape() == seq![old(self).data().len() as usize],
    {
        let n = self.inner.len();
        let mut d: Vec<usize> = Vec::new();
        d.push(n);
        assert(d@.drop_last() =~= Seq::<usize>::empty());
        assert(d@.len() == 1 && d@.last() == n);
        assert(shape_product(Seq::<usize>::empty()) == 1);
        assert(shape_product(d@) == 1 * (n as nat));
        self.dims = d;
    }
}

/// What `reshape` makes of a tensor's value: the same elements under shape `s`.
pub open spec fn reshape_model<T>(m: (Seq<T>, Seq<usize>), s: Seq<usize>) -> (Seq<T>, Seq<usize>) {
    (m.0, s)
}

/// Reshaping a well-formed tensor to any shape of its size and then back to its own
/// shape gives the tensor's value back, and the way back is always allowed: the second
/// `reshape`'s precondition holds of the first one's result.
pub proof fn lemma_reshape_round_trip<T>(t: Tensor<T>, s: Seq<usize>)
    requires
        t.wf(),
        shape_product(s) == t.data().len(),
    ensures
        shape_product(t.shape()) == reshape_model(t.model(), s).0.len(),
        reshape_model(reshape_model(t.model(), s), t.shape()) == t.model(),
{
}

/// Whether the product of `dims` equals `len`, computed without overflow.
fn product_equals(dims: &Vec<usize>, len: usize) -> (r: bool)
    ensures
        r == (shape_product(dims@) == len),
{
    let mut i: usize = 0;
    while i < dims.len()
        invariant
            i <= dims@.len(),
            forall|k: int| 0 <= k < i ==> dims@[k] >= 1,
        decreases dims@.len() - i,
    {
        if dims[i] == 0 {
            proof {
                lemma_product_zero(dims@, i as int);
            }
            return len == 0;
        }
        i = i + 1;
    }
    assert(no_zero_extent(dims@));
    if len == 0 {
        proof {
            lemma_product_positive(dims@);
        }
        return false;
    }
    let mut prod: u128 = 1;
    let mut j: usize = 0;
    assert(dims@.subrange(0, 0) =~= Seq::<usize>::empty());
    while j < dims.len()
        invariant
            j <= dims@.len(),
            no_zero_extent(dims@),
            prod == shape_product(dims@.subrange(0, j as int)),
            prod <= len,
        decreases dims@.len() - j,
    {
        let d = dims[j] as u128;
        assert(prod * d <= u64::MAX as u128 * u64::MAX as u128) by (nonlinear_arith)
            requires
                prod <= u64::MAX,
                d <= u64::MAX,
        ;
        let next = prod * d;
        assert(dims@.subrange(0, j + 1).drop_last() =~= dims@.subrange(0, j as int));
        if next > len as u128 {
            proof {
                lemma_prefix_product_le(dims@, j + 1);
            }
            return false;
        }
        prod = next;
        j = j + 1;
    }
    assert(dims@.subrange(0, j as int) =~= dims@);
    prod == len as u128
}

/// A zero extent makes the product zero.
pub proof fn lemma_product_zero(s: Seq<usize>, k: int)
    requires
        0 <= k < s.len(),
        s[k] == 0,
    ensures
        shape_product(s) == 0,
    decreases s.len(),
{
    if k == s.len() - 1 {
        assert(s.last() == 0);
        assert(shape_product(s) == shape_product(s.drop_last()) * 0);
    } else {
        assert(s.drop_last()[k] == 0);
        lemma_product_zero(s.drop_last(), k);
        assert(shape_product(s) == 0 * (s.last() as nat));
    }
}

} // verus!
