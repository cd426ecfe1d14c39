//! Reading a quantised cache.
use vstd::arithmetic::div_mod::lemma_fundamental_div_mod_converse;
use vstd::prelude::*;

use crate::gguf::ggml::GgmlDType;
use crate::llm::kvcache::{q8_bytes, q8_entry_bytes, KVCache};
use crate::llm::rows::{lemma_row_bounds, row};
use crate::quant::codes::{element, element_of, Element};

verus! {

/// The elements of `n` entries of `dim` elements each, from entry `first` on.
pub open spec fn entry_elements(s: Seq<u8>, first: int, n: int, dim: int) -> Seq<Element> {
    Seq::new(
        (n * dim) as nat,
        |k: int| element_of(GgmlDType::Q8_0, row(s, first + k / dim, q8_bytes(dim)), k % dim),
    )
}

fn read_entries(s: &Vec<u8>, first: usize, n: usize, dim: usize, Ghost(count): Ghost<int>) -> (r:
    Vec<Element>)
    requires
        first + n <= count <= usize::MAX,
        s@.len() == count * q8_bytes(dim as int),
    ensures
        r@ == entry_elements(s@, first as int, n as int, dim as int),
{
    let mut out: Vec<Element> = Vec::new();
    let ghost d = dim as int;
    let mut p: usize = 0;
    assert(0 * d == 0);
    while p < n
        invariant
            p <= n,
            d == dim,
            first + n <= count <= usize::MAX,
            s@.len() == count * q8_bytes(d),
            out@.len() == p * d,
            forall|k: int|
                0 <= k < out@.len() ==> #[trigger] out@[k] == entry_elements(
                    s@,
                    first as int,
                    n as int,
                    d,
                )[k],
        decreases n - p,
    {
        proof {
            lemma_row_bounds(first + p, first + p + 1, count, q8_bytes(d));
            assert(s@.len() == s.len());
            assert(q8_bytes(d) <= s@.len());
        }
        let size: usize = q8_entry_bytes(dim);
        let start: usize = (first + p) * size;
        let entry = vstd::slice::slice_subrange(s.as_slice(), start, start + size);
        assert(entry@ =~= row(s@, first + p, q8_bytes(d)));
        let mut i: usize = 0;
        while i < dim
            invariant
                p < n,
                i <= dim,
                d == dim,
                entry@ == row(s@, first + p, q8_bytes(d)),
                entry@.len() == q8_bytes(d),
                out@.len() == p * d + i,
                forall|k: int|
                    0 <= k < out@.len() ==> #[trigger] out@[k] == entry_elements(
                        s@,
                        first as int,
                        n as int,
                        d,
                    )[k],
            decreases dim - i,
        {
            proof {
                lemma_fundamental_div_mod_converse(out@.len() as int, d, p as int, i as int);
                assert((p + 1) * d <= n * d) by (nonlinear_arith)
                    requires
                        p < n,
                        0 <= d,
                {
                }
                assert((p + 1) * d == p * d + d) by (nonlinear_arith);
            }
            out.push(element(GgmlDType::Q8_0, entry, i));
            i += 1;
        }
        p += 1;
        assert(p * d == (p - 1) * d + d) by (nonlinear_arith);
    }
    assert(out@ =~= entry_elements(s@, first as int, n as int, d));
    out
}

impl<T: Copy> KVCache<T> {
    /// The keys of the first `seq_len` positions of a head of a quantised cache, one behind the
    /// other.
    pub fn k_slice_dequant(&self, head: usize, seq_len: usize) -> (r: Vec<Element>)
        requires
            self.wf(),
            self.storage is Q8_0,
            head < self.n_kv_heads,
            seq_len <= self.max_seq_len,
        ensures
            r@ == Seq::new(
                (seq_len * self.head_dim) as nat,
                |k: int|
                    element_of(
                        GgmlDType::Q8_0,
                        self.key_q8(head as int, k / self.head_dim as int),
                        k % self.head_dim as int,
                    ),
            ),
    {
        proof {
            self.lemma_head(head as int);
        }
        let first: usize = head * self.max_seq_len;
        let r = read_entries(&self.k_q8, first, seq_len, self.head_dim, Ghost(self.entries()));
        assert(r@ =~= Seq::new(
            (seq_len * self.head_dim) as nat,
            |k: int|
                element_of(
                    GgmlDType::Q8_0,
                    self.key_q8(head as int, k / self.head_dim as int),
                    k % self.head_dim as int,
                ),
        ));
        r
    }

    /// The values of the first `seq_len` positions of a head of a quantised cache, one behind the
    /// other.
    pub fn v_slice_dequant(&self, head: usize, seq_len: usize) -> (r: Vec<Element>)
        requires
            self.wf(),
            self.storage is Q8_0,
            head < self.n_kv_heads,
            seq_len <= self.max_seq_len,
        ensures
            r@ == Seq::new(
                (seq_len * self.head_dim) as nat,
                |k: int|
                    element_of(
                        GgmlDType::Q8_0,
                        self.value_q8(head as int, k / self.head_dim as int),
                        k % self.head_dim as int,
                    ),
            ),
    {
        proof {
            self.lemma_head(head as int);
        }
        let first: usize = head * self.max_seq_len;
        let r = read_entries(&self.v_q8, first, seq_len, self.head_dim, Ghost(self.entries()));
        assert(r@ =~= Seq::new(
            (seq_len * self.head_dim) as nat,
            |k: int|
                element_of(
                    GgmlDType::Q8_0,
                    self.value_q8(head as int, k / self.head_dim as int),
                    k % self.head_dim as int,
                ),
        ));
        r
    }

    proof fn lemma_head(&self, head: int)
        requires
            self.wf(),
            0 <= head < self.n_kv_heads,
        ensures
            0 <= head * self.max_seq_len,
            head * self.max_seq_len + self.max_seq_len <= self.entries(),
            self.entries() <= usize::MAX,
    {
        let (m, n) = (self.max_seq_len as int, self.n_kv_heads as int);
        assert(0 <= head * m && head * m + m <= n * m) by (nonlinear_arith)
            requires
                0 <= head < n,
                0 <= m,
        {
        }
    }
}

} // verus!
