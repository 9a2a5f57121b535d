//! Where a tensor lives in a circuit, and the values handed to it.

use vstd::prelude::*;
use crate::tensor::{Tensor, shape_product};

verus! {

/// The storage of a tensor in circuit columns: either witness columns, assigned anew
/// for each proof, or fixed columns, whose values are part of the circuit itself.
/// Element `i` of the tensor sits in column `i / col_size`, `i % col_size` rows below
/// the offset at which the tensor is placed.
#[derive(Debug, Clone)]
pub enum VarTensor<A, F> {
    Advice { inner: Vec<A>, col_size: usize, capacity: usize, dims: Vec<usize> },
    Fixed { inner: Vec<F>, col_size: usize, capacity: usize, dims: Vec<usize> },
}

impl<A, F> VarTensor<A, F> {
    /// The logical shape.
    pub open spec fn shape(&self) -> Seq<usize> {
        match self {
            VarTensor::Advice { dims, .. } => dims@,
            VarTensor::Fixed { dims, .. } => dims@,
        }
    }

    /// `other` has the same kind, columns, rows per column and capacity as `self`.
    pub open spec fn same_storage(&self, other: &Self) -> bool {
        match (self, other) {
            (
                VarTensor::Advice { inner: a, col_size: r, capacity: c, .. },
                VarTensor::Advice { inner: b, col_size: s, capacity: d, .. },
            ) => a == b && r == s && c == d,
            (
                VarTensor::Fixed { inner: a, col_size: r, capacity: c, .. },
                VarTensor::Fixed { inner: b, col_size: s, capacity: d, .. },
            ) => a == b && r == s && c == d,
            _ => false,
        }
    }

    /// The number of rows each column holds.
    pub open spec fn rows(&self) -> nat {
        match self {
            VarTensor::Advice { col_size, .. } => *col_size as nat,
            VarTensor::Fixed { col_size, .. } => *col_size as nat,
        }
    }

    /// The logical shape.
    pub fn dims(&self) -> (r: &Vec<usize>)
        ensures
            r@ == self.shape(),
    {
        match self {
            VarTensor::Advice { dims, .. } => dims,
            VarTensor::Fixed { dims, .. } => dims,
        }
    }

    /// Reinterprets the same cells under another shape of the same size.
    pub fn reshape(&mut self, new_dims: Vec<usize>)
        requires
            shape_product(new_dims@) == shape_product(old(self).shape()),
        ensures
            final(self).shape() == new_dims@,
            final(self).same_storage(&*old(self)),
            final(self).rows() == old(self).rows(),
    {
        match self {
            VarTensor::Advice { dims, .. } => {
                *dims = new_dims;
            },
            VarTensor::Fixed { dims, .. } => {
                *dims = new_dims;
            },
        }
    }

    /// The column and the row of element `i` when the tensor is placed at `offset`.
    pub fn cell_of(&self, offset: usize, i: usize) -> (r: (usize, usize))
        requires
            self.rows() > 0,
            offset + self.rows() <= usize::MAX,
        ensures
            r.0 == (i as int) / (self.rows() as int),
            r.1 == offset + (i as int) % (self.rows() as int),
    {
        let col_size = match self {
            VarTensor::Advice { col_size, .. } => *col_size,
            VarTensor::Fixed { col_size, .. } => *col_size,
        };
        (i / col_size, offset + i % col_size)
    }
}

/// The values handed to an operation: either values not yet placed in the circuit,
/// or cells that an earlier operation already assigned, which a later one reads
/// directly instead of copying.
#[derive(Debug, Clone)]
pub enum ValTensor<V, C> {
    Value { inner: Tensor<V>, dims: Vec<usize> },
    PrevAssigned { inner: Tensor<C>, dims: Vec<usize> },
}

impl<V, C> ValTensor<V, C> {
    /// The recorded shape is the shape of the tensor held.
    pub open spec fn wf(&self) -> bool {
        match self {
            ValTensor::Value { inner, dims } => inner.wf() && inner.shape() == dims@,
            ValTensor::PrevAssigned { inner, dims } => inner.wf() && inner.shape() == dims@,
        }
    }

    /// The recorded shape.
    pub open spec fn shape(&self) -> Seq<usize> {
        match self {
            ValTensor::Value { dims, .. } => dims@,
            ValTensor::PrevAssigned { dims, .. } => dims@,
        }
    }

    /// Values not yet placed in the circuit.
    pub fn from_values(inner: Tensor<V>) -> (r: Self)
        requires
            inner.wf(),
        ensures
            r.wf(),
            r matches ValTensor::Value { inner: t, .. } && t == inner,
    {
        let dims = inner.dims().clone();
        ValTensor::Value { inner, dims }
    }

    /// Cells an earlier operation assigned.
    pub fn from_assigned(inner: Tensor<C>) -> (r: Self)
        requires
            inner.wf(),
        ensures
            r.wf(),
            r matches ValTensor::PrevAssigned { inner: t, .. } && t == inner,
    {
        let dims = inner.dims().clone();
        ValTensor::PrevAssigned { inner, dims }
    }

    /// The recorded shape.
    pub fn dims(&self) -> (r: &Vec<usize>)
        ensures
            r@ == self.shape(),
    {
        match self {
            ValTensor::Value { dims, .. } => dims,
            ValTensor::PrevAssigned { dims, .. } => dims,
        }
    }
}

/// The values to assign to `variable`: witness columns take the freshly `assigned`
/// values, while fixed columns take the values of the `Value` input itself.
pub fn value_muxer<A, F, V, C>(
    variable: &VarTensor<A, F>,
    assigned: Tensor<V>,
    input: ValTensor<V, C>,
) -> (r: Tensor<V>)
    requires
        variable is Fixed ==> input is Value,
    ensures
        variable is Advice ==> r == assigned,
        variable is Fixed ==> (input matches ValTensor::Value { inner, .. } && r == inner),
        assigned.wf() && input.wf() ==> r.wf(),
{
    match variable {
        VarTensor::Advice { .. } => assigned,
        VarTensor::Fixed { .. } => match input {
            ValTensor::Value { inner, .. } => inner,
            ValTensor::PrevAssigned { .. } => assigned,
        },
    }
}

} // verus!
