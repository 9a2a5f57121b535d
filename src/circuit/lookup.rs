//! Lookup tables that encode a pointwise function over a bounded integer domain: an
//! `(input, output)` pair is accepted exactly when it is a row of the table.

use vstd::prelude::*;
use vstd::arithmetic::power2::{pow2, lemma_pow2_unfold};
use crate::tensor::nonlinearities::{relu_value, relu_elem};

verus! {

/// A two-column table of `(input, output)` rows.
pub struct LookupTable {
    inputs: Vec<i32>,
    outputs: Vec<i32>,
}

/// The domain of a `bits`-bit table: `[-2^(bits - 1), 2^(bits - 1))`.
pub open spec fn in_domain(bits: nat, x: int) -> bool {
    -(pow2((bits - 1) as nat) as int) <= x < pow2((bits - 1) as nat) as int
}

impl LookupTable {
    /// The input column.
    pub closed spec fn input_col(&self) -> Seq<i32> {
        self.inputs@
    }

    /// The output column.
    pub closed spec fn output_col(&self) -> Seq<i32> {
        self.outputs@
    }

    /// `(x, y)` is a row of the table.
    pub open spec fn has_row(&self, x: int, y: int) -> bool {
        exists|k: int|
            0 <= k < self.input_col().len() && k < self.output_col().len() && #[trigger] self.input_col()[k]
                == x && self.output_col()[k] == y
    }

    /// The table of the rectifier at `scale` over the `bits`-bit domain: row `k` holds
    /// the input `k - 2^(bits - 1)` and its rectified value.
    pub open spec fn is_relu_table(&self, bits: nat, scale: int) -> bool {
        let half = pow2((bits - 1) as nat) as int;
        &&& self.input_col().len() == 2 * half
        &&& self.output_col().len() == 2 * half
        &&& forall|k: int|
            0 <= k < 2 * half ==> #[trigger] self.input_col()[k] == k - half
                && self.output_col()[k] == relu_value(k - half, scale)
    }

    /// Builds the rectifier's table over the `bits`-bit domain, evaluating it at every
    /// input.
    pub fn relu(bits: u32, scale: i32) -> (t: LookupTable)
        requires
            1 <= bits <= 31,
            scale >= 1,
        ensures
            t.is_relu_table(bits as nat, scale as int),
    {
        let mut half: i64 = 1;
        let mut b: u32 = 1;
        proof {
            vstd::arithmetic::power2::lemma2_to64();
        }
        while b < bits
            invariant
                1 <= b <= bits <= 31,
                half == pow2((b - 1) as nat),
            decreases bits - b,
        {
            proof {
                lemma_pow2_unfold(b as nat);
                vstd::arithmetic::power2::lemma_pow2_strictly_increases((b - 1) as nat, 30);
                vstd::arithmetic::power2::lemma2_to64();
            }
            half = half * 2;
            b = b + 1;
        }
        proof {
            if bits < 31 {
                vstd::arithmetic::power2::lemma_pow2_strictly_increases((bits - 1) as nat, 30);
            }
            vstd::arithmetic::power2::lemma2_to64();
        }
        let mut inputs: Vec<i32> = Vec::new();
        let mut outputs: Vec<i32> = Vec::new();
        let mut x: i64 = -half;
        while x < half
            invariant
                half == pow2((bits - 1) as nat),
                1 <= half <= 0x4000_0000,
                scale >= 1,
                -half <= x <= half,
                inputs@.len() == x + half,
                outputs@.len() == x + half,
                forall|k: int|
                    0 <= k < inputs@.len() ==> #[trigger] inputs@[k] == k - half && outputs@[k]
                        == relu_value(k - half, scale as int),
            decreases half - x,
        {
            inputs.push(x as i32);
            outputs.push(relu_elem(x as i32, scale));
            x = x + 1;
        }
        let t = LookupTable { inputs, outputs };
        assert(x == half);
        assert(t.input_col().len() == 2 * half);
        assert(forall|k: int|
            0 <= k < 2 * half ==> #[trigger] t.input_col()[k] == k - half
                && t.output_col()[k] == relu_value(k - half, scale as int));
        t
    }

    /// Whether `(x, y)` is a row of the table.
    pub fn contains(&self, x: i32, y: i32) -> (r: bool)
        ensures
            r == self.has_row(x as int, y as int),
    {
        let mut k: usize = 0;
        while k < self.inputs.len() && k < self.outputs.len()
            invariant
                forall|j: int|
                    0 <= j < k ==> !(#[trigger] self.inputs@[j] == x && self.outputs@[j] == y),
                k <= self.inputs@.len(),
            decreases self.inputs@.len() - k,
        {
            if self.inputs[k] == x && self.outputs[k] == y {
                assert(self.input_col()[k as int] == x && self.output_col()[k as int] == y);
                return true;
            }
            k = k + 1;
        }
        false
    }

    /// The number of rows.
    pub fn len(&self) -> (r: usize)
        ensures
            r == self.input_col().len(),
    {
        self.inputs.len()
    }
}

/// A rectifier table over `bits` bits holds exactly the pairs of an input in
/// `[-2^(bits - 1), 2^(bits - 1))` with its rectified value: every such input appears
/// with its correct output, and no pair with an input outside the domain, or with a
/// wrong output, is accepted.
pub proof fn lemma_relu_table_complete(t: LookupTable, bits: nat, scale: int, x: int, y: int)
    requires
        bits >= 1,
        t.is_relu_table(bits, scale),
    ensures
        t.has_row(x, y) <==> (in_domain(bits, x) && y == relu_value(x, scale)),
{
    let half = pow2((bits - 1) as nat) as int;
    if in_domain(bits, x) && y == relu_value(x, scale) {
        let k = x + half;
        assert(t.input_col()[k] == x);
    }
}

} // verus!
