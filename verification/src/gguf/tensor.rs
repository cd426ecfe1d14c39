//! Entries of the tensor table.
use vstd::prelude::*;

use crate::gguf::ggml::{byte_size_of, GgmlDType};

verus! {

/// The smaller of `n` and the largest `u64`.
pub open spec fn saturate(n: nat) -> nat {
    if n > u64::MAX {
        u64::MAX as nat
    } else {
        n
    }
}

/// Product of the dimensions, each partial product saturating.
pub open spec fn saturating_product(shape: Seq<u64>) -> nat
    decreases shape.len(),
{
    if shape.len() == 0 {
        1
    } else {
        saturate(saturating_product(shape.drop_last()) * shape.last() as nat)
    }
}

/// Product of the dimensions.
pub open spec fn product(shape: Seq<u64>) -> nat
    decreases shape.len(),
{
    if shape.len() == 0 {
        1
    } else {
        product(shape.drop_last()) * shape.last() as nat
    }
}

/// Name, shape, element type and place of a tensor.
#[derive(Debug, Clone)]
pub struct TensorInfo {
    pub name: String,
    pub shape: Vec<u64>,
    pub dtype: GgmlDType,
    pub dtype_id: u32,
    pub offset: u64,
}

/// What an entry of the tensor table says.
pub struct TensorModel {
    pub name: Seq<char>,
    pub shape: Seq<u64>,
    pub dtype: GgmlDType,
    pub dtype_id: u32,
    pub offset: u64,
}

impl View for TensorInfo {
    type V = TensorModel;

    open spec fn view(&self) -> TensorModel {
        TensorModel {
            name: self.name@,
            shape: self.shape@,
            dtype: self.dtype,
            dtype_id: self.dtype_id,
            offset: self.offset,
        }
    }
}

/// `a * b`, or the largest `u64` where that is too big.
pub fn saturating_mul(a: u64, b: u64) -> (r: u64)
    ensures
        r == saturate((a * b) as nat),
{
    match a.checked_mul(b) {
        Some(p) => p,
        None => u64::MAX,
    }
}

impl TensorInfo {
    /// Number of elements; the largest `u64` where a partial product is too big.
    pub fn element_count(&self) -> (r: u64)
        ensures
            r == saturating_product(self.shape@),
    {
        let mut n: u64 = 1;
        let mut i: usize = 0;
        assert(self.shape@.take(0).len() == 0);
        while i < self.shape.len()
            invariant
                i <= self.shape@.len(),
                n == saturating_product(self.shape@.take(i as int)),
            decreases self.shape@.len() - i,
        {
            proof {
                assert(self.shape@.take(i + 1).drop_last() =~= self.shape@.take(i as int));
            }
            n = saturating_mul(n, self.shape[i]);
            i += 1;
        }
        assert(self.shape@.take(i as int) =~= self.shape@);
        n
    }

    /// Bytes that the tensor takes, or `None` where the count does not fit in `usize`.
    pub fn checked_byte_size(&self) -> (r: Option<usize>)
        ensures
            match r {
                Some(b) => saturating_product(self.shape@) <= usize::MAX && b == byte_size_of(
                    self.dtype,
                    saturating_product(self.shape@),
                ),
                None => saturating_product(self.shape@) > usize::MAX || byte_size_of(
                    self.dtype,
                    saturating_product(self.shape@),
                ) > usize::MAX,
            },
    {
        let n: u64 = self.element_count();
        if n > usize::MAX as u64 {
            None
        } else {
            self.dtype.checked_byte_size(n as usize)
        }
    }

    /// Bytes that the tensor takes.
    pub fn byte_size(&self) -> (r: usize)
        requires
            saturating_product(self.shape@) <= usize::MAX,
            byte_size_of(self.dtype, saturating_product(self.shape@)) <= usize::MAX,
        ensures
            r == byte_size_of(self.dtype, saturating_product(self.shape@)),
    {
        self.dtype.byte_size(self.element_count() as usize)
    }
}

/// The number of elements is the product of the dimensions where that fits, else the largest `u64`.
pub proof fn law_element_count_is_exact(shape: Seq<u64>)
    ensures
        saturating_product(shape) == saturate(product(shape)),
    decreases shape.len(),
{
    if shape.len() > 0 {
        law_element_count_is_exact(shape.drop_last());
        let p = product(shape.drop_last()) as int;
        let d = shape.last() as int;
        let top = u64::MAX as int;
        if p > top && d > 0 {
            assert(p * d >= p && top * d >= top) by (nonlinear_arith)
                requires
                    p > 0,
                    d > 0,
                    top > 0,
            {
            }
        } else if d == 0 {
            assert(p * d == 0 && top * d == 0);
        }
    }
}

} // verus!
