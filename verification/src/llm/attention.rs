//! Which parts of which buffers attention reads and writes.
//!
//! Queries and outputs hold one row of `n_q_heads * head_dim` elements per token.  Keys and values
//! hold `max_seq_len` positions per key/value head.  Several query heads share one key/value head.
use vstd::arithmetic::div_mod::{lemma_fundamental_div_mod, lemma_fundamental_div_mod_converse};
use vstd::prelude::*;

use crate::gguf::ggml::GgmlDType;
use crate::llm::kvcache::{q8_bytes, q8_entry_bytes, KVCache};
use crate::quant::codes::{element_of, half_at};

verus! {

/// The dimensions of batched attention.
#[derive(Debug, Clone, Copy, PartialEq, Eq, Structural)]
pub struct AttnDims {
    pub seq_len: usize,
    pub n_q_heads: usize,
    pub n_kv_heads: usize,
    pub head_dim: usize,
    pub max_seq_len: usize,
}

/// Attention of one query head at one token: where its query and output begin, where the keys and
/// values that it attends to begin, and how many positions they span.
#[derive(Debug, Clone, Copy, PartialEq, Eq, Structural)]
pub struct HeadJob {
    pub query_start: usize,
    pub out_start: usize,
    pub kv_start: usize,
    pub kv_len: usize,
    pub attended: usize,
}

impl AttnDims {
    /// Query heads per key/value head.
    pub open spec fn repeat(&self) -> int {
        self.n_q_heads as int / self.n_kv_heads as int
    }

    /// Elements per token.
    pub open spec fn width(&self) -> int {
        self.n_q_heads * self.head_dim
    }

    /// Heads divide evenly, all tokens fit in the cache, and all buffers can be addressed, with
    /// `row` units per cached position.
    pub open spec fn wf(&self, row: int) -> bool {
        &&& 0 < self.n_kv_heads
        &&& self.n_q_heads as int % self.n_kv_heads as int == 0
        &&& self.seq_len <= self.max_seq_len
        &&& self.seq_len * self.width() <= usize::MAX
        &&& self.width() <= usize::MAX
        &&& 0 <= row
        &&& self.max_seq_len * row <= usize::MAX
        &&& self.n_kv_heads * (self.max_seq_len * row) <= usize::MAX
        &&& self.seq_len * self.n_q_heads <= usize::MAX
    }

    /// The job of query head `qh` at token `s`, with `row` units per cached position.
    pub open spec fn job(&self, s: int, qh: int, row: int) -> HeadJob {
        HeadJob {
            query_start: (s * self.width() + qh * self.head_dim) as usize,
            out_start: (s * self.width() + qh * self.head_dim) as usize,
            kv_start: ((qh / self.repeat()) * (self.max_seq_len * row)) as usize,
            kv_len: ((s + 1) * row) as usize,
            attended: (s + 1) as usize,
        }
    }

    /// The jobs of the key/value heads from `begin` to `end`: token by token, head by head.
    pub open spec fn jobs(&self, begin: int, end: int, row: int) -> Seq<HeadJob> {
        let per_token = if begin < end {
            (end - begin) * self.repeat()
        } else {
            0
        };
        Seq::new(
            (self.seq_len * per_token) as nat,
            |k: int| self.job(k / per_token, begin * self.repeat() + k % per_token, row),
        )
    }

    /// Heads and their shares.
    proof fn lemma_heads(&self, row: int)
        requires
            self.wf(row),
        ensures
            0 <= self.repeat(),
            self.repeat() * self.n_kv_heads == self.n_q_heads,
    {
        lemma_fundamental_div_mod(self.n_q_heads as int, self.n_kv_heads as int);
        vstd::arithmetic::div_mod::lemma_div_pos_is_pos(
            self.n_q_heads as int,
            self.n_kv_heads as int,
        );
        vstd::arithmetic::mul::lemma_mul_is_commutative(self.repeat(), self.n_kv_heads as int);
    }

    /// Every part that a job names lies inside its buffer.
    pub proof fn law_jobs_stay_inside(&self, s: int, qh: int, row: int)
        requires
            self.wf(row),
            0 <= s < self.seq_len,
            0 <= qh < self.n_q_heads,
        ensures
            0 < self.repeat(),
            0 <= qh / self.repeat() < self.n_kv_heads,
            0 <= s * self.width() + qh * self.head_dim,
            s * self.width() + qh * self.head_dim + self.head_dim <= self.seq_len * self.width(),
            0 <= (qh / self.repeat()) * (self.max_seq_len * row),
            (qh / self.repeat()) * (self.max_seq_len * row) + (s + 1) * row <= self.n_kv_heads * (
            self.max_seq_len * row),
            0 <= (s + 1) * row <= self.max_seq_len * row,
    {
        self.lemma_heads(row);
        let (rep, kv, q, d, n) = (
            self.repeat(),
            self.n_kv_heads as int,
            self.n_q_heads as int,
            self.head_dim as int,
            self.seq_len as int,
        );
        assert(0 < rep) by (nonlinear_arith)
            requires
                rep * kv == q,
                0 < q,
                0 < kv,
                0 <= rep,
        {
        }
        let g = qh / rep;
        lemma_fundamental_div_mod(qh, rep);
        vstd::arithmetic::div_mod::lemma_mod_bound(qh, rep);
        vstd::arithmetic::div_mod::lemma_div_pos_is_pos(qh, rep);
        assert(g < kv) by (nonlinear_arith)
            requires
                qh == rep * g + qh % rep,
                0 <= qh % rep,
                qh < q,
                rep * kv == q,
                0 < rep,
        {
        }
        let w = self.width();
        assert(0 <= qh * d && qh * d + d <= w && 0 <= s * w && s * w + w <= n * w)
            by (nonlinear_arith)
            requires
                0 <= qh < q,
                0 <= d,
                w == q * d,
                0 <= s < n,
        {
        }
        let m = self.max_seq_len as int;
        let st = m * row;
        assert(0 <= (s + 1) * row && (s + 1) * row <= st) by (nonlinear_arith)
            requires
                0 <= s < m,
                0 <= row,
                st == m * row,
        {
        }
        assert(0 <= g * st && g * st + st <= kv * st) by (nonlinear_arith)
            requires
                0 <= g < kv,
                0 <= st,
        {
        }
    }

    /// The jobs of a run of key/value heads.
    pub fn head_jobs(&self, begin: usize, end: usize, row: usize) -> (r: Vec<HeadJob>)
        requires
            self.wf(row as int),
            begin < end ==> end <= self.n_kv_heads,
        ensures
            r@ == self.jobs(begin as int, end as int, row as int),
    {
        if begin >= end {
            let none: Vec<HeadJob> = Vec::new();
            assert(self.seq_len * 0 == 0);
            assert(none@ =~= self.jobs(begin as int, end as int, row as int));
            return none;
        }
        proof {
            self.lemma_heads(row as int);
        }
        let kv_repeat: usize = self.n_q_heads / self.n_kv_heads;
        let ghost rep = self.repeat();
        let ghost per_token = (end - begin) * rep;
        let stride: usize = self.max_seq_len * row;
        let width: usize = self.n_q_heads * self.head_dim;
        let mut out: Vec<HeadJob> = Vec::new();
        let mut s: usize = 0;
        while s < self.seq_len
            invariant
                self.wf(row as int),
                begin <= end <= self.n_kv_heads,
                rep == self.repeat(),
                kv_repeat == rep,
                0 <= rep,
                rep * self.n_kv_heads == self.n_q_heads,
                per_token == (end - begin) * rep,
                stride == self.max_seq_len * row,
                width == self.width(),
                s <= self.seq_len,
                out@.len() == s * per_token,
                forall|k: int|
                    0 <= k < out@.len() ==> #[trigger] out@[k] == self.job(
                        k / per_token,
                        begin * rep + k % per_token,
                        row as int,
                    ),
            decreases self.seq_len - s,
        {
            let mut kvh: usize = begin;
            while kvh < end
                invariant
                    self.wf(row as int),
                    begin <= kvh <= end <= self.n_kv_heads,
                    rep == self.repeat(),
                    kv_repeat == rep,
                    0 <= rep,
                    rep * self.n_kv_heads == self.n_q_heads,
                    per_token == (end - begin) * rep,
                    stride == self.max_seq_len * row,
                    width == self.width(),
                    s < self.seq_len,
                    out@.len() == s * per_token + (kvh - begin) * rep,
                    forall|k: int|
                        0 <= k < out@.len() ==> #[trigger] out@[k] == self.job(
                            k / per_token,
                            begin * rep + k % per_token,
                            row as int,
                        ),
                decreases end - kvh,
            {
                let mut r: usize = 0;
                while r < kv_repeat
                    invariant
                        self.wf(row as int),
                        begin <= kvh < end <= self.n_kv_heads,
                        rep == self.repeat(),
                        kv_repeat == rep,
                        rep * self.n_kv_heads == self.n_q_heads,
                        per_token == (end - begin) * rep,
                        stride == self.max_seq_len * row,
                        width == self.width(),
                        s < self.seq_len,
                        r <= kv_repeat,
                        out@.len() == s * per_token + (kvh - begin) * rep + r,
                        forall|k: int|
                            0 <= k < out@.len() ==> #[trigger] out@[k] == self.job(
                                k / per_token,
                                begin * rep + k % per_token,
                                row as int,
                            ),
                    decreases kv_repeat - r,
                {
                    proof {
                        let (h, n, b, e) = (kvh as int, self.n_kv_heads as int, begin as int, end as int);
                        let q = h * rep + r;
                        assert(0 <= h * rep && q < n * rep && 0 <= (h - b) * rep && (h - b) * rep + r
                            < (e - b) * rep && (h - b) * rep + r + b * rep == q) by (nonlinear_arith)
                            requires
                                0 <= b <= h < e <= n,
                                0 <= r < rep,
                                q == h * rep + r,
                        {
                        }
                        assert(n * rep == rep * n) by (nonlinear_arith);
                        self.law_jobs_stay_inside(s as int, q, row as int);
                        lemma_fundamental_div_mod_converse(q, rep, h, r as int);
                        let k = out@.len() as int;
                        lemma_fundamental_div_mod_converse(
                            k,
                            per_token,
                            s as int,
                            (h - b) * rep + r,
                        );
                        assert(0 <= s * width && 0 <= q * self.head_dim && 0 <= h * stride)
                            by (nonlinear_arith)
                            requires
                                0 <= s,
                                0 <= width,
                                0 <= q,
                                0 <= self.head_dim,
                                0 <= h,
                                0 <= stride,
                        {
                        }
                    }
                    let qh: usize = kvh * kv_repeat + r;
                    let start: usize = s * width + qh * self.head_dim;
                    out.push(
                        HeadJob {
                            query_start: start,
                            out_start: start,
                            kv_start: kvh * stride,
                            kv_len: (s + 1) * row,
                            attended: s + 1,
                        },
                    );
                    r += 1;
                }
                kvh += 1;
                assert((kvh - begin) * rep == (kvh - 1 - begin) * rep + rep) by (nonlinear_arith);
            }
            s += 1;
            assert(s * per_token == (s - 1) * per_token + per_token) by (nonlinear_arith);
        }
        assert(out@ =~= self.jobs(begin as int, end as int, row as int));
        out
    }

    /// The job of query head `qh` of a single token that attends to `attended` positions.
    pub open spec fn single_job(&self, qh: int, attended: int, row: int) -> HeadJob {
        HeadJob {
            query_start: (qh * self.head_dim) as usize,
            out_start: (qh * self.head_dim) as usize,
            kv_start: ((qh / self.repeat()) * (self.max_seq_len * row)) as usize,
            kv_len: (attended * row) as usize,
            attended: attended as usize,
        }
    }

    /// The jobs of a single token that attends to `attended` positions.
    pub fn single_jobs(&self, attended: usize, row: usize) -> (r: Vec<HeadJob>)
        requires
            self.wf(row as int),
            self.seq_len == 1,
            attended <= self.max_seq_len,
        ensures
            r@ == Seq::new(
                self.n_q_heads as nat,
                |qh: int| self.single_job(qh, attended as int, row as int),
            ),
    {
        let kv_repeat: usize = self.n_q_heads / self.n_kv_heads;
        let stride: usize = self.max_seq_len * row;
        assert(0 <= attended * row <= stride) by (nonlinear_arith)
            requires
                0 <= attended <= self.max_seq_len,
                0 <= row,
                stride == self.max_seq_len * row,
        {
        }
        let mut out: Vec<HeadJob> = Vec::new();
        let mut qh: usize = 0;
        while qh < self.n_q_heads
            invariant
                self.wf(row as int),
                self.seq_len == 1,
                kv_repeat == self.repeat(),
                stride == self.max_seq_len * row,
                0 <= attended * row <= stride,
                qh <= self.n_q_heads,
                out@.len() == qh,
                forall|k: int|
                    0 <= k < qh ==> #[trigger] out@[k] == self.single_job(
                        k,
                        attended as int,
                        row as int,
                    ),
            decreases self.n_q_heads - qh,
        {
            proof {
                self.law_jobs_stay_inside(0, qh as int, row as int);
                assert(0 * self.width() == 0);
                assert(1 * self.width() == self.width());
            }
            out.push(
                HeadJob {
                    query_start: qh * self.head_dim,
                    out_start: qh * self.head_dim,
                    kv_start: (qh / kv_repeat) * stride,
                    kv_len: attended * row,
                    attended,
                },
            );
            qh += 1;
        }
        assert(out@ =~= Seq::new(
            self.n_q_heads as nat,
            |qh: int| self.single_job(qh, attended as int, row as int),
        ));
        out
    }

    /// Whether the dimensions fit together and everything can be addressed, with `row` units per
    /// cached position.
    pub fn is_valid(&self, row: usize) -> (r: bool)
        ensures
            r == self.wf(row as int),
    {
        if self.n_kv_heads == 0 || self.n_q_heads % self.n_kv_heads != 0 || self.seq_len
            > self.max_seq_len {
            return false;
        }
        let width: usize = match self.n_q_heads.checked_mul(self.head_dim) {
            Some(x) => x,
            None => return false,
        };
        let stride: usize = match self.max_seq_len.checked_mul(row) {
            Some(x) => x,
            None => return false,
        };
        self.seq_len.checked_mul(width).is_some() && self.n_kv_heads.checked_mul(stride).is_some()
            && self.seq_len.checked_mul(self.n_q_heads).is_some()
    }

    /// Units per cached position in quantised storage.
    pub fn q8_row(&self) -> (r: usize)
        requires
            q8_bytes(self.head_dim as int) <= usize::MAX,
        ensures
            r == q8_bytes(self.head_dim as int),
    {
        q8_entry_bytes(self.head_dim)
    }
}

/// Two query heads of one token never share an output element, nor do two tokens.
pub proof fn law_outputs_are_disjoint(d: AttnDims, row: int, s: int, a: int, t: int, b: int)
    requires
        d.wf(row),
        0 <= s < d.seq_len,
        0 <= t < d.seq_len,
        0 <= a < d.n_q_heads,
        0 <= b < d.n_q_heads,
        s < t || (s == t && a < b),
    ensures
        s * d.width() + a * d.head_dim + d.head_dim <= t * d.width() + b * d.head_dim,
{
    let (w, h, q) = (d.width(), d.head_dim as int, d.n_q_heads as int);
    assert(s * w + a * h + h <= t * w + b * h) by (nonlinear_arith)
        requires
            0 <= a < q,
            0 <= b < q,
            0 <= h,
            w == q * h,
            s < t || (s == t && a < b),
    {
        if s < t {
            assert(s * w + w <= t * w);
            assert(a * h + h <= w);
            assert(0 <= b * h);
        } else {
            assert(a * h + h <= b * h);
        }
    }
}

/// Attention looks back only: the token at `s` reads the positions up to its own.
pub proof fn law_attention_is_causal(d: AttnDims, s: int, qh: int, row: int)
    requires
        d.wf(row),
        0 <= s < d.seq_len,
        0 <= qh < d.n_q_heads,
    ensures
        d.job(s, qh, row).attended == s + 1,
        d.job(s, qh, row).kv_len == (s + 1) * row,
{
    d.law_jobs_stay_inside(s, qh, row);
}

/// Where element `i` of a quantised row has its scale and its code, in blocks of 34 bytes: two
/// for the scale, one for each of 32 elements.
pub open spec fn q8_place(i: int) -> (int, int) {
    (i / 32 * 34, i / 32 * 34 + 2 + i % 32)
}

/// Where element `i` of a quantised row has its scale and its code.
pub fn q8_element(i: usize) -> (r: (usize, usize))
    requires
        q8_place(i as int).1 <= usize::MAX,
    ensures
        (r.0 as int, r.1 as int) == q8_place(i as int),
{
    let block: usize = i / 32 * 34;
    (block, block + 2 + i % 32)
}

/// Where the `i`-th run of eight elements of a quantised row has its scale and its first code.
pub fn q8_run(i: usize) -> (r: (usize, usize))
    requires
        q8_place(8 * i).1 + 7 <= usize::MAX,
    ensures
        (r.0 as int, r.1 as int) == q8_place(8 * i),
{
    let block: usize = i / 4 * 34;
    (block, block + 2 + i % 4 * 8)
}

/// The elements of a run of eight share a block and stand side by side.
pub proof fn law_run_is_contiguous(i: int, t: int)
    requires
        0 <= i,
        0 <= t < 8,
    ensures
        q8_place(8 * i + t) == (q8_place(8 * i).0, q8_place(8 * i).1 + t),
{
    let (q, r) = (i / 4, i % 4);
    lemma_fundamental_div_mod(i, 4);
    lemma_fundamental_div_mod_converse(8 * i + t, 32, q, 8 * r + t);
    lemma_fundamental_div_mod_converse(8 * i, 32, q, 8 * r);
}

/// Every element of a row has its scale and its code inside the row.
pub proof fn law_q8_elements_stay_inside(i: int, head_dim: int)
    requires
        0 <= i < head_dim,
    ensures
        0 <= q8_place(i).0 < q8_place(i).1 < q8_bytes(head_dim),
{
}

/// Query heads share key/value heads in groups of neighbours: the heads from `g * repeat` on, `repeat` of
/// them, read what the cache holds of head `g`, from its first position on.  A query is read, and its
/// output written, at the place of the head in the row of the token.
pub proof fn law_jobs_read_their_heads<T: Copy>(
    d: AttnDims,
    cache: KVCache<T>,
    s: int,
    qh: int,
    g: int,
    attended: int,
    row: int,
)
    requires
        d.wf(row),
        cache.max_seq_len == d.max_seq_len,
        cache.n_kv_heads == d.n_kv_heads,
        0 <= s < d.seq_len,
        0 <= qh < d.n_q_heads,
        g * d.repeat() <= qh < g * d.repeat() + d.repeat(),
        0 <= attended <= d.max_seq_len,
    ensures
        d.n_q_heads == d.repeat() * d.n_kv_heads,
        d.job(s, qh, row).kv_start == cache.entry(g, 0) * row,
        d.job(s, qh, row).query_start == s * (d.n_q_heads * d.head_dim) + qh * d.head_dim,
        d.job(s, qh, row).out_start == s * (d.n_q_heads * d.head_dim) + qh * d.head_dim,
        s == 0 ==> d.single_job(qh, attended, row).kv_start == cache.entry(g, 0) * row,
        s == 0 ==> d.single_job(qh, attended, row).query_start == qh * d.head_dim,
        s == 0 ==> d.single_job(qh, attended, row).out_start == qh * d.head_dim,
        s == 0 ==> d.single_job(qh, attended, row).attended == attended,
        s == 0 ==> d.single_job(qh, attended, row).kv_len == attended * row,
{
    d.law_jobs_stay_inside(s, qh, row);
    d.lemma_heads(row);
    let rep = d.repeat();
    lemma_fundamental_div_mod_converse(qh, rep, g, qh - g * rep);
    let m = d.max_seq_len as int;
    assert(g * (m * row) == (g * m) * row) by (nonlinear_arith);
    assert(0 <= attended * row <= m * row) by (nonlinear_arith)
        requires
            0 <= attended <= m,
            0 <= row,
    {
    }
    let w = d.width();
    if s == 0 {
        assert(0 * w == 0);
    }
}

/// Scale and code of an element of a quantised row stand where its format has them.
pub proof fn law_q8_places_are_the_formats(row: Seq<u8>, i: int)
    requires
        0 <= i,
    ensures
        ({
            let (e, (scale, code)) = (element_of(GgmlDType::Q8_0, row, i), q8_place(i));
            &&& e.d == half_at(row, scale)
            &&& e.q == row[code] || e.q == row[code] - 256
            &&& -128 <= e.q < 128
        }),
{
}

} // verus!
