//! Weight tensors in memory.
use vstd::prelude::*;

use crate::gguf::ggml::{
    block_size_of, byte_size_of, law_whole_blocks_add_up, GgmlDType,
};

verus! {

/// A tensor's bytes, element type and shape.
pub struct TensorEntry {
    pub data: Vec<u8>,
    pub dtype: GgmlDType,
    pub shape: Vec<u64>,
}

impl TensorEntry {
    /// Number of rows: the second dimension, one where there is none.
    pub open spec fn rows(&self) -> usize {
        if self.shape@.len() >= 2 {
            self.shape@[1] as usize
        } else {
            1
        }
    }

    /// Number of columns: the first dimension, none where there is no dimension.
    pub open spec fn cols(&self) -> usize {
        if self.shape@.len() > 0 {
            self.shape@[0] as usize
        } else {
            0
        }
    }

    /// Bytes of one row.
    pub open spec fn row_size(&self) -> nat {
        byte_size_of(self.dtype, self.cols() as nat)
    }

    pub fn n_rows(&self) -> (r: usize)
        ensures
            r == self.rows(),
    {
        if self.shape.len() >= 2 {
            #[verifier::truncate]
            (self.shape[1] as usize)
        } else {
            1
        }
    }

    pub fn n_cols(&self) -> (r: usize)
        ensures
            r == self.cols(),
    {
        if self.shape.len() > 0 {
            #[verifier::truncate]
            (self.shape[0] as usize)
        } else {
            0
        }
    }

    /// The bytes of a row; fewer where the data ends within it.
    pub fn row_data(&self, row: usize) -> (r: &[u8])
        requires
            self.row_size() <= usize::MAX,
            row * self.row_size() <= self.data@.len(),
            row * self.row_size() + self.row_size() <= usize::MAX,
        ensures
            r@ == self.data@.subrange(
                (row * self.row_size()) as int,
                if row * self.row_size() + self.row_size() < self.data@.len() {
                    (row * self.row_size() + self.row_size()) as int
                } else {
                    self.data@.len() as int
                },
            ),
    {
        let cols: usize = self.n_cols();
        let row_bytes: usize = self.dtype.byte_size(cols);
        assert(0 <= row * row_bytes) by (nonlinear_arith);
        let start: usize = row * row_bytes;
        let wanted: usize = start + row_bytes;
        let end: usize = if wanted < self.data.len() { wanted } else { self.data.len() };
        vstd::slice::slice_subrange(self.data.as_slice(), start, end)
    }

    /// How many values the row of a token gives to an embedding of `d` values; nothing where there is
    /// no such row.
    pub fn embedded_cols(&self, token: u32, d: usize) -> (r: Option<usize>)
        ensures
            r == if token >= self.rows() {
                None
            } else if self.cols() < d {
                Some(self.cols())
            } else {
                Some(d)
            },
    {
        if token as usize >= self.n_rows() {
            return None;
        }
        let cols: usize = self.n_cols();
        Some(if cols < d { cols } else { d })
    }

    /// Whether several rows can be taken at a time.
    pub fn can_batch(&self) -> (r: bool)
        ensures
            r == (self.shape@.len() >= 2 && self.shape@[0] > 1),
    {
        self.shape.len() >= 2 && self.shape[0] > 1
    }
}

/// Rows of whole blocks fill a tensor exactly: `rows` rows of `cols` elements take as many bytes
/// as all the elements together.
pub proof fn law_rows_fill_the_tensor(d: GgmlDType, rows: nat, cols: nat)
    requires
        cols % block_size_of(d) == 0,
    ensures
        byte_size_of(d, rows * cols) == rows * byte_size_of(d, cols),
    decreases rows,
{
    if rows == 0 {
        assert(0 * cols == 0) by (nonlinear_arith);
        assert(0 * byte_size_of(d, cols) == 0) by (nonlinear_arith);
        crate::gguf::ggml::law_blocks_are_tight(d, 0);
    } else {
        let less = (rows - 1) as nat;
        law_rows_fill_the_tensor(d, less, cols);
        assert(rows * cols == cols + less * cols) by (nonlinear_arith)
            requires
                rows == less + 1,
        {
        }
        law_whole_blocks_add_up(d, cols, less * cols);
        assert(rows * byte_size_of(d, cols) == byte_size_of(d, cols) + less * byte_size_of(d, cols))
            by (nonlinear_arith)
            requires
                rows == less + 1,
        {
        }
    }
}

} // verus!
