//! How work is shared out among threads.
//!
//! Rows are cut into one run per worker, runs into tiles that fit the cache, and every output
//! cell is computed by exactly one worker.
use vstd::arithmetic::div_mod::{lemma_fundamental_div_mod, lemma_fundamental_div_mod_converse};
use vstd::prelude::*;

verus! {

/// A share of work as numbers: how many rows, how many tokens, and how they are laid out.
#[derive(Debug, Clone, Copy, PartialEq, Eq, Structural)]
pub struct WorkParams {
    pub n: usize,
    pub seq_len: usize,
    pub q8_stride: usize,
    pub row_bytes: usize,
    pub n_cols: usize,
    pub tile_size: usize,
    pub is_quantize: bool,
    pub is_par_for: bool,
}

/// Where work is done.
#[derive(Debug, Clone, Copy, PartialEq, Eq, Structural)]
pub enum Dispatch {
    Nothing,
    Inline,
    Workers,
}

/// Bytes of weights that one tile may take.
pub const TILE_BYTES: usize = 1048576;

/// Rows per tile: as many as fit, at least one.
pub open spec fn tile_rows(row_bytes: int) -> int {
    if TILE_BYTES as int / row_bytes < 1 {
        1
    } else {
        TILE_BYTES as int / row_bytes
    }
}

/// `n / d`, rounded up.
pub open spec fn div_up(n: int, d: int) -> int {
    (n + d - 1) / d
}

/// Rows per worker.
pub open spec fn chunk_of(n: int, workers: int) -> int {
    div_up(n, workers)
}

/// First row of a worker; may lie behind the last row.
pub open spec fn range_begin(n: int, workers: int, i: int) -> int {
    i * chunk_of(n, workers)
}

/// Row behind the last one of a worker.
pub open spec fn range_end(n: int, workers: int, i: int) -> int {
    let e = range_begin(n, workers, i) + chunk_of(n, workers);
    if e < n {
        e
    } else {
        n
    }
}

/// `n / d`, rounded up.
pub fn div_ceil(n: usize, d: usize) -> (r: usize)
    requires
        0 < d,
    ensures
        r == div_up(n as int, d as int),
{
    let extra: usize = if n % d == 0 { 0 } else { 1 };
    proof {
        crate::gguf::ggml::lemma_div_round_up(n as int, d as int);
    }
    n / d + extra
}

impl WorkParams {
    /// No work.
    pub fn idle() -> (r: Self)
        ensures
            r == (WorkParams {
                n: 0,
                seq_len: 1,
                q8_stride: 0,
                row_bytes: 0,
                n_cols: 0,
                tile_size: usize::MAX,
                is_quantize: false,
                is_par_for: false,
            }),
    {
        WorkParams {
            n: 0,
            seq_len: 1,
            q8_stride: 0,
            row_bytes: 0,
            n_cols: 0,
            tile_size: usize::MAX,
            is_quantize: false,
            is_par_for: false,
        }
    }

    /// One call for each of `n` items.
    pub fn par_for(n: usize) -> (r: Self)
        ensures
            r == (WorkParams {
                n,
                seq_len: 1,
                q8_stride: 0,
                row_bytes: 0,
                n_cols: 0,
                tile_size: usize::MAX,
                is_quantize: false,
                is_par_for: true,
            }),
    {
        WorkParams { n, is_par_for: true, ..WorkParams::idle() }
    }

    /// Quantising `seq_len` rows of `dim` elements, in blocks of 32 elements and 34 bytes.
    pub fn quantize(seq_len: usize, dim: usize) -> (r: Self)
        requires
            div_up(dim as int, 32) * 34 <= usize::MAX,
        ensures
            r == (WorkParams {
                n: seq_len,
                seq_len: 1,
                q8_stride: 0,
                row_bytes: (div_up(dim as int, 32) * 34) as usize,
                n_cols: dim,
                tile_size: usize::MAX,
                is_quantize: true,
                is_par_for: false,
            }),
    {
        let row_bytes: usize = div_ceil(dim, 32) * 34;
        WorkParams {
            n: seq_len,
            row_bytes,
            n_cols: dim,
            is_quantize: true,
            ..WorkParams::idle()
        }
    }

    /// Dot products of `n` rows with each of `seq_len` activations.
    pub fn dot_rows_batched(
        n: usize,
        seq_len: usize,
        q8_stride: usize,
        row_bytes: usize,
        n_cols: usize,
    ) -> (r: Self)
        requires
            0 < row_bytes,
        ensures
            r == (WorkParams {
                n,
                seq_len,
                q8_stride,
                row_bytes,
                n_cols,
                tile_size: tile_rows(row_bytes as int) as usize,
                is_quantize: false,
                is_par_for: false,
            }),
            0 < r.tile_size,
    {
        let fit: usize = TILE_BYTES / row_bytes;
        assert(TILE_BYTES as int / row_bytes as int <= TILE_BYTES) by (nonlinear_arith)
            requires
                0 < row_bytes,
        {
        }
        let tile_size: usize = if fit < 1 { 1 } else { fit };
        WorkParams { n, seq_len, q8_stride, row_bytes, n_cols, tile_size, ..WorkParams::idle() }
    }

    /// Dot products of `n` rows with one activation.
    pub fn dot_rows(n: usize, row_bytes: usize, n_cols: usize) -> (r: Self)
        requires
            0 < row_bytes,
        ensures
            r == (WorkParams {
                n,
                seq_len: 1,
                q8_stride: 0,
                row_bytes,
                n_cols,
                tile_size: tile_rows(row_bytes as int) as usize,
                is_quantize: false,
                is_par_for: false,
            }),
            0 < r.tile_size,
    {
        WorkParams::dot_rows_batched(n, 1, 0, row_bytes, n_cols)
    }

    /// Where this work is done: nowhere without rows or tokens, by the caller where one thread or
    /// one item makes sharing pointless.
    pub fn dispatch(&self, num_threads: usize) -> (r: Dispatch)
        ensures
            r == if self.n == 0 || self.seq_len == 0 {
                Dispatch::Nothing
            } else if num_threads <= 1 || (self.n <= 1 && self.seq_len <= 1) {
                Dispatch::Inline
            } else {
                Dispatch::Workers
            },
    {
        if self.n == 0 || self.seq_len == 0 {
            Dispatch::Nothing
        } else if num_threads <= 1 || (self.n <= 1 && self.seq_len <= 1) {
            Dispatch::Inline
        } else {
            Dispatch::Workers
        }
    }
}

/// The chunks of all workers reach the end and not far beyond it.
proof fn lemma_chunks(n: int, workers: int)
    requires
        0 <= n,
        0 < workers,
    ensures
        0 <= chunk_of(n, workers),
        n <= workers * chunk_of(n, workers) < n + workers,
{
    let c = chunk_of(n, workers);
    lemma_fundamental_div_mod(n + workers - 1, workers);
    vstd::arithmetic::div_mod::lemma_mod_bound(n + workers - 1, workers);
    vstd::arithmetic::div_mod::lemma_div_pos_is_pos(n + workers - 1, workers);
}

/// The rows of worker `i` of `workers`: from the first to behind the last.  Late workers may have
/// none, with a start behind the last row.
pub fn worker_range(n: usize, workers: usize, i: usize) -> (r: (usize, usize))
    requires
        i < workers,
        n + workers <= usize::MAX,
    ensures
        r.0 == range_begin(n as int, workers as int, i as int),
        r.1 == range_end(n as int, workers as int, i as int),
{
    let chunk: usize = div_ceil(n, workers);
    proof {
        lemma_chunks(n as int, workers as int);
        let c = chunk as int;
        assert(0 <= i * c && i * c + c <= workers * c) by (nonlinear_arith)
            requires
                0 <= i < workers,
                0 <= c,
        {
        }
    }
    let begin: usize = i * chunk;
    let e: usize = begin + chunk;
    (begin, if e < n { e } else { n })
}

/// A row belongs to a worker.
pub open spec fn owns(n: int, workers: int, i: int, r: int) -> bool {
    range_begin(n, workers, i) <= r < range_end(n, workers, i)
}

/// Each row belongs to exactly one worker.
pub proof fn law_each_row_has_one_worker(n: int, workers: int, r: int)
    requires
        0 < workers,
        0 <= r < n,
    ensures
        exists|i: int| 0 <= i < workers && #[trigger] owns(n, workers, i, r),
        forall|i: int, j: int|
            0 <= i && 0 <= j && #[trigger] owns(n, workers, i, r) && #[trigger] owns(
                n,
                workers,
                j,
                r,
            ) ==> i == j,
{
    let c = chunk_of(n, workers);
    lemma_chunks(n, workers);
    assert(0 < c) by (nonlinear_arith)
        requires
            0 < n <= workers * c,
            0 < workers,
            0 <= c,
    {
    }
    let i = r / c;
    lemma_fundamental_div_mod(r, c);
    vstd::arithmetic::div_mod::lemma_mod_bound(r, c);
    assert(0 <= i < workers && i * c <= r < i * c + c) by (nonlinear_arith)
        requires
            0 < c,
            0 <= r < n,
            n <= workers * c,
            r == c * i + r % c,
            0 <= r % c < c,
    {
    }
    assert(owns(n, workers, i, r));
    assert forall|a: int, b: int|
        0 <= a && 0 <= b && #[trigger] owns(n, workers, a, r) && #[trigger] owns(
            n,
            workers,
            b,
            r,
        ) implies a == b by {
        assert(a == b) by (nonlinear_arith)
            requires
                0 < c,
                a * c <= r < a * c + c,
                b * c <= r < b * c + c,
        {
        }
    }
}

/// No worker has a row beyond the last.
pub proof fn law_workers_stay_inside(n: int, workers: int, i: int, r: int)
    requires
        0 <= n,
        0 < workers,
        0 <= i < workers,
        owns(n, workers, i, r),
    ensures
        0 <= r < n,
{
    lemma_chunks(n, workers);
    let c = chunk_of(n, workers);
    assert(0 <= i * c) by (nonlinear_arith)
        requires
            0 <= i,
            0 <= c,
    {
    }
}

/// One output cell: a row of weights and a token.
#[derive(Debug, Clone, Copy, PartialEq, Eq, Structural)]
pub struct DotCell {
    pub row: usize,
    pub token: usize,
}

/// The cells of a run of rows: all rows of the first token, then of the next.
pub open spec fn cells(seq_len: int, begin: int, end: int) -> Seq<DotCell> {
    let w = if begin < end {
        end - begin
    } else {
        0
    };
    Seq::new(
        (seq_len * w) as nat,
        |k: int| DotCell { row: (begin + k % w) as usize, token: (k / w) as usize },
    )
}

/// The cells that one worker computes, in order, tile by tile.
pub fn worker_cells(seq_len: usize, begin: usize, end: usize, tile_size: usize) -> (r: Vec<DotCell>)
    requires
        0 < tile_size,
    ensures
        r@ == cells(seq_len as int, begin as int, end as int),
{
    let mut out: Vec<DotCell> = Vec::new();
    if begin >= end {
        assert(out@ =~= cells(seq_len as int, begin as int, end as int)) by {
            assert(seq_len * 0 == 0);
        }
        return out;
    }
    let ghost w = end - begin;
    let mut s: usize = 0;
    while s < seq_len
        invariant
            s <= seq_len,
            begin < end,
            w == end - begin,
            0 < tile_size,
            out@.len() == s * w,
            forall|k: int|
                0 <= k < out@.len() ==> #[trigger] out@[k] == (DotCell {
                    row: (begin + k % w) as usize,
                    token: (k / w) as usize,
                }),
        decreases seq_len - s,
    {
        let mut r: usize = begin;
        while r < end
            invariant
                s < seq_len,
                begin <= r <= end,
                begin < end,
                w == end - begin,
                0 < tile_size,
                out@.len() == s * w + (r - begin),
                forall|k: int|
                    0 <= k < out@.len() ==> #[trigger] out@[k] == (DotCell {
                        row: (begin + k % w) as usize,
                        token: (k / w) as usize,
                    }),
            decreases end - r,
        {
            let tile_end: usize = if tile_size < end - r { r + tile_size } else { end };
            let mut row: usize = r;
            while row < tile_end
                invariant
                    s < seq_len,
                    begin <= r <= row <= tile_end <= end,
                    begin < end,
                    w == end - begin,
                    out@.len() == s * w + (row - begin),
                    forall|k: int|
                        0 <= k < out@.len() ==> #[trigger] out@[k] == (DotCell {
                            row: (begin + k % w) as usize,
                            token: (k / w) as usize,
                        }),
                decreases tile_end - row,
            {
                proof {
                    let k = out@.len() as int;
                    let j = row - begin;
                    lemma_fundamental_div_mod_converse(k, w, s as int, j);
                }
                out.push(DotCell { row, token: s });
                row += 1;
            }
            r = tile_end;
        }
        s += 1;
        assert(s * w == (s - 1) * w + w) by (nonlinear_arith);
    }
    assert(out@ =~= cells(seq_len as int, begin as int, end as int));
    out
}

/// Where a cell's value goes in an output of `n` values per token.
pub open spec fn cell_index(c: DotCell, n: int) -> int {
    c.row + c.token * n
}

/// Cells of the same output place are the same cell.
pub proof fn law_cells_do_not_collide(a: DotCell, b: DotCell, n: int)
    requires
        a.row < n,
        b.row < n,
        cell_index(a, n) == cell_index(b, n),
    ensures
        a == b,
{
    let (s, t, p, q) = (a.token as int, b.token as int, a.row as int, b.row as int);
    assert(s == t && p == q) by (nonlinear_arith)
        requires
            0 <= p < n,
            0 <= q < n,
            p + s * n == q + t * n,
    {
    }
}

/// Every cell of a run of rows is listed: each token with each row.
pub proof fn law_every_cell_is_listed(seq_len: int, begin: int, end: int, row: int, token: int)
    requires
        0 <= begin <= row < end <= usize::MAX,
        0 <= token < seq_len <= usize::MAX,
    ensures
        cells(seq_len, begin, end).contains(
            DotCell { row: row as usize, token: token as usize },
        ),
{
    let w = end - begin;
    let k = token * w + (row - begin);
    assert(0 <= k < seq_len * w) by (nonlinear_arith)
        requires
            0 <= token < seq_len,
            0 <= row - begin < w,
            k == token * w + (row - begin),
    {
    }
    lemma_fundamental_div_mod_converse(k, w, token, row - begin);
    assert(cells(seq_len, begin, end)[k] == (DotCell { row: row as usize, token: token as usize }));
}

/// What a worker does next.
#[derive(Debug, Clone, Copy, PartialEq, Eq, Structural)]
pub enum WorkerAction {
    Stop,
    Work,
    Spin,
    Yield,
}

/// Idle turns after which a worker lets others run.
pub const SPIN_LIMIT: u64 = 65536;

/// What a worker remembers between turns.
#[derive(Debug, Clone, Copy, PartialEq, Eq, Structural)]
pub struct WorkerState {
    pub generation: u64,
    pub spins: u64,
}

impl WorkerState {
    pub open spec fn wf(&self) -> bool {
        self.spins < SPIN_LIMIT
    }

    pub fn new() -> (r: Self)
        ensures
            r.generation == 0,
            r.spins == 0,
            r.wf(),
    {
        WorkerState { generation: 0, spins: 0 }
    }

    /// One turn: work where there is a new generation of it, stop where the pool shuts down, and
    /// else wait, letting others run every so often.
    pub fn step(&mut self, generation: u64, shutdown: bool) -> (r: WorkerAction)
        requires
            old(self).wf(),
        ensures
            final(self).wf(),
            r is Stop <==> shutdown,
            r is Work <==> !shutdown && generation != old(self).generation,
            r is Yield <==> !shutdown && generation == old(self).generation && old(self).spins + 1
                == SPIN_LIMIT,
            final(self).generation == generation,
            !shutdown ==> final(self).spins == if r is Spin {
                (old(self).spins + 1) as u64
            } else {
                0
            },
    {
        if generation != self.generation {
            self.generation = generation;
            self.spins = 0;
            if shutdown {
                WorkerAction::Stop
            } else {
                WorkerAction::Work
            }
        } else if shutdown {
            WorkerAction::Stop
        } else {
            self.spins = self.spins + 1;
            if self.spins < SPIN_LIMIT {
                WorkerAction::Spin
            } else {
                self.spins = 0;
                WorkerAction::Yield
            }
        }
    }
}

} // verus!
