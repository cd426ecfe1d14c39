//! The key/value cache of attention.
//!
//! A cache keeps one key and one value per head and position, `max_seq_len` positions for each
//! head in a row.  Plain storage holds elements of any copyable type; quantised storage holds
//! blocks of 32 elements in 34 bytes.
use vstd::prelude::*;

use crate::llm::rows::{
    filled, lemma_row_bounds, row, shift_rows, write_row,
};

verus! {

/// How a cache stores its entries.
#[derive(Debug, Clone, Copy, PartialEq, Eq, Structural)]
pub enum KVStorage {
    F32,
    Q8_0,
}

pub const Q8_0_BLOCK_SIZE: usize = 32;

pub const Q8_0_BLOCK_BYTES: usize = 34;

/// Keys and values of earlier positions.
pub struct KVCache<T> {
    pub k: Vec<T>,
    pub v: Vec<T>,
    pub k_q8: Vec<u8>,
    pub v_q8: Vec<u8>,
    pub n_kv_heads: usize,
    pub head_dim: usize,
    pub max_seq_len: usize,
    pub current_len: usize,
    pub storage: KVStorage,
    pub zero: T,
}

/// Bytes of one quantised entry.
pub open spec fn q8_bytes(head_dim: int) -> int {
    (head_dim + 31) / 32 * 34
}

/// Bytes of one quantised entry.
pub fn q8_entry_bytes(head_dim: usize) -> (r: usize)
    requires
        q8_bytes(head_dim as int) <= usize::MAX,
    ensures
        r == q8_bytes(head_dim as int),
{
    let extra: usize = if head_dim % 32 == 0 { 0 } else { 1 };
    (head_dim / 32 + extra) * 34
}

/// A cache of these dimensions can be addressed.
pub open spec fn addressable(n_kv_heads: int, head_dim: int, max_seq_len: int) -> bool {
    &&& n_kv_heads * max_seq_len <= usize::MAX
    &&& (n_kv_heads * max_seq_len) * head_dim <= usize::MAX
    &&& q8_bytes(head_dim) <= usize::MAX
    &&& (n_kv_heads * max_seq_len) * q8_bytes(head_dim) <= usize::MAX
}

/// Whether a cache of these dimensions can be addressed.
pub fn is_addressable(n_kv_heads: usize, head_dim: usize, max_seq_len: usize) -> (r: bool)
    ensures
        r == addressable(n_kv_heads as int, head_dim as int, max_seq_len as int),
{
    let entries: usize = match n_kv_heads.checked_mul(max_seq_len) {
        Some(x) => x,
        None => return false,
    };
    let extra: usize = if head_dim % 32 == 0 { 0 } else { 1 };
    let size: usize = match (head_dim / 32 + extra).checked_mul(34) {
        Some(x) => x,
        None => return false,
    };
    entries.checked_mul(head_dim).is_some() && entries.checked_mul(size).is_some()
}

impl<T: Copy> KVCache<T> {
    /// Number of entries.
    pub open spec fn entries(&self) -> int {
        self.n_kv_heads * self.max_seq_len
    }

    /// The number of the entry of a head at a position.
    pub open spec fn entry(&self, head: int, pos: int) -> int {
        head * self.max_seq_len + pos
    }

    pub open spec fn q8_size(&self) -> int {
        q8_bytes(self.head_dim as int)
    }

    /// The buffers have the sizes that the dimensions ask for; plain buffers are made at the first
    /// write.
    pub open spec fn wf(&self) -> bool {
        &&& addressable(self.n_kv_heads as int, self.head_dim as int, self.max_seq_len as int)
        &&& self.current_len <= self.max_seq_len
        &&& self.k@.len() == self.v@.len()
        &&& self.k_q8@.len() == self.v_q8@.len()
        &&& self.storage is F32 ==> (self.k@.len() == 0 && self.current_len == 0)
            || self.k@.len() == self.entries() * self.head_dim
        &&& self.storage is Q8_0 ==> self.k_q8@.len() == self.entries() * self.q8_size()
    }

    /// The buffers are in place.
    pub open spec fn allocated(&self) -> bool {
        self.k@.len() == self.entries() * self.head_dim
    }

    /// The key of a head at a position.
    pub open spec fn key(&self, head: int, pos: int) -> Seq<T> {
        if self.allocated() {
            row(self.k@, self.entry(head, pos), self.head_dim as int)
        } else {
            Seq::new(self.head_dim as nat, |i: int| self.zero)
        }
    }

    /// The value of a head at a position.
    pub open spec fn value(&self, head: int, pos: int) -> Seq<T> {
        if self.allocated() {
            row(self.v@, self.entry(head, pos), self.head_dim as int)
        } else {
            Seq::new(self.head_dim as nat, |i: int| self.zero)
        }
    }

    /// The quantised key of a head at a position.
    pub open spec fn key_q8(&self, head: int, pos: int) -> Seq<u8> {
        row(self.k_q8@, self.entry(head, pos), self.q8_size())
    }

    /// The quantised value of a head at a position.
    pub open spec fn value_q8(&self, head: int, pos: int) -> Seq<u8> {
        row(self.v_q8@, self.entry(head, pos), self.q8_size())
    }

    /// A head and a position of the cache.
    pub open spec fn inside(&self, head: int, pos: int) -> bool {
        0 <= head < self.n_kv_heads && 0 <= pos < self.max_seq_len
    }

    /// The dimensions and the kind of storage are those of another cache.
    pub open spec fn same_shape(&self, o: &KVCache<T>) -> bool {
        &&& self.n_kv_heads == o.n_kv_heads
        &&& self.head_dim == o.head_dim
        &&& self.max_seq_len == o.max_seq_len
        &&& self.storage == o.storage
        &&& self.zero == o.zero
    }

    /// Entries have numbers below the number of entries, different ones for different places.
    pub proof fn lemma_entry(&self, head: int, pos: int)
        requires
            self.inside(head, pos),
        ensures
            0 <= self.entry(head, pos) < self.entries(),
            0 <= head * self.max_seq_len <= self.entries(),
    {
        let (m, n) = (self.max_seq_len as int, self.n_kv_heads as int);
        assert(0 <= head * m && head * m + m <= n * m) by (nonlinear_arith)
            requires
                0 <= head < n,
                0 <= m,
        {
        }
    }

    /// Different places have different entries.
    pub proof fn lemma_entries_differ(&self, h: int, p: int, g: int, q: int)
        requires
            self.inside(h, p),
            self.inside(g, q),
            (h, p) != (g, q),
        ensures
            self.entry(h, p) != self.entry(g, q),
    {
        let m = self.max_seq_len as int;
        assert(h * m + p != g * m + q) by (nonlinear_arith)
            requires
                0 <= p < m,
                0 <= q < m,
                h != g || p != q,
        {
        }
    }

    /// An empty cache with plain storage.
    pub fn new(n_kv_heads: usize, head_dim: usize, max_seq_len: usize, zero: T) -> (r: Self)
        ensures
            r.n_kv_heads == n_kv_heads,
            r.head_dim == head_dim,
            r.max_seq_len == max_seq_len,
            r.current_len == 0,
            r.storage is F32,
            r.zero == zero,
            r.k@.len() == 0 && r.v@.len() == 0,
            r.k_q8@.len() == 0 && r.v_q8@.len() == 0,
            addressable(n_kv_heads as int, head_dim as int, max_seq_len as int) ==> r.wf(),
    {
        KVCache {
            k: Vec::new(),
            v: Vec::new(),
            k_q8: Vec::new(),
            v_q8: Vec::new(),
            n_kv_heads,
            head_dim,
            max_seq_len,
            current_len: 0,
            storage: KVStorage::F32,
            zero,
        }
    }

    /// An empty cache with quantised storage.
    pub fn new_q8_0(n_kv_heads: usize, head_dim: usize, max_seq_len: usize, zero: T) -> (r: Self)
        requires
            addressable(n_kv_heads as int, head_dim as int, max_seq_len as int),
        ensures
            r.n_kv_heads == n_kv_heads,
            r.head_dim == head_dim,
            r.max_seq_len == max_seq_len,
            r.current_len == 0,
            r.storage is Q8_0,
            r.zero == zero,
            r.wf(),
            r.k_q8@ == Seq::new(
                ((n_kv_heads * max_seq_len) * q8_bytes(head_dim as int)) as nat,
                |i: int| 0u8,
            ),
            r.v_q8@ == r.k_q8@,
            r.k@.len() == 0 && r.v@.len() == 0,
    {
        let per_entry: usize = q8_entry_bytes(head_dim);
        let bytes: usize = (n_kv_heads * max_seq_len) * per_entry;
        KVCache {
            k: Vec::new(),
            v: Vec::new(),
            k_q8: filled(0u8, bytes),
            v_q8: filled(0u8, bytes),
            n_kv_heads,
            head_dim,
            max_seq_len,
            current_len: 0,
            storage: KVStorage::Q8_0,
            zero,
        }
    }

    /// An empty cache with the given storage.
    pub fn new_with_storage(
        n_kv_heads: usize,
        head_dim: usize,
        max_seq_len: usize,
        storage: KVStorage,
        zero: T,
    ) -> (r: Self)
        requires
            addressable(n_kv_heads as int, head_dim as int, max_seq_len as int),
        ensures
            r.n_kv_heads == n_kv_heads,
            r.head_dim == head_dim,
            r.max_seq_len == max_seq_len,
            r.current_len == 0,
            r.storage == storage,
            r.zero == zero,
            r.wf(),
            r.k@.len() == 0 && r.v@.len() == 0,
            storage is F32 ==> r.k_q8@.len() == 0,
            storage is Q8_0 ==> r.k_q8@ == Seq::new(
                ((n_kv_heads * max_seq_len) * q8_bytes(head_dim as int)) as nat,
                |i: int| 0u8,
            ),
            r.v_q8@ == r.k_q8@,
    {
        match storage {
            KVStorage::F32 => Self::new(n_kv_heads, head_dim, max_seq_len, zero),
            KVStorage::Q8_0 => Self::new_q8_0(n_kv_heads, head_dim, max_seq_len, zero),
        }
    }

    pub fn is_q8_0(&self) -> (r: bool)
        ensures
            r == (self.storage is Q8_0),
    {
        matches!(self.storage, KVStorage::Q8_0)
    }

    /// Bytes that keys and values take, four for a plain element.
    pub open spec fn bytes_needed(&self) -> int {
        match self.storage {
            KVStorage::F32 => self.entries() * self.head_dim * 4 * 2,
            KVStorage::Q8_0 => self.entries() * self.q8_size() * 2,
        }
    }

    pub fn memory_bytes(&self) -> (r: usize)
        requires
            self.wf(),
            self.bytes_needed() <= usize::MAX,
        ensures
            r == self.bytes_needed(),
    {
        let entries: usize = self.n_kv_heads * self.max_seq_len;
        match self.storage {
            KVStorage::F32 => {
                proof {
                    let t = entries * self.head_dim;
                    assert(0 <= t) by (nonlinear_arith)
                        requires
                            0 <= entries,
                            0 <= self.head_dim,
                            t == entries * self.head_dim,
                    {
                    }
                }
                entries * self.head_dim * 4 * 2
            },
            KVStorage::Q8_0 => {
                let size: usize = q8_entry_bytes(self.head_dim);
                proof {
                    let t = entries * size;
                    assert(0 <= t) by (nonlinear_arith)
                        requires
                            0 <= entries,
                            0 <= size,
                            t == entries * size,
                    {
                    }
                }
                entries * size * 2
            },
        }
    }

    /// Where the quantised entry of a head at a position begins.
    pub fn q8_position_offset(&self, head: usize, pos: usize) -> (r: usize)
        requires
            self.wf(),
            self.inside(head as int, pos as int),
        ensures
            r == self.entry(head as int, pos as int) * self.q8_size(),
            r + self.q8_size() <= self.entries() * self.q8_size(),
    {
        let size: usize = q8_entry_bytes(self.head_dim);
        proof {
            self.lemma_entry(head as int, pos as int);
            lemma_row_bounds(
                self.entry(head as int, pos as int),
                self.entry(head as int, pos as int) + 1,
                self.entries(),
                size as int,
            );
        }
        (head * self.max_seq_len + pos) * size
    }

    fn allocate(&mut self)
        requires
            old(self).wf(),
            old(self).storage is F32,
        ensures
            final(self).wf(),
            final(self).allocated(),
            final(self).same_shape(old(self)),
            final(self).current_len == old(self).current_len,
            forall|h: int, p: int| #[trigger]
                old(self).inside(h, p) ==> final(self).key(h, p) == old(self).key(h, p) && final(self).value(h, p) == old(self).value(h, p),
    {
        let total: usize = (self.n_kv_heads * self.max_seq_len) * self.head_dim;
        if self.k.len() < total {
            let ghost before = *self;
            self.k = filled(self.zero, total);
            self.v = filled(self.zero, total);
            proof {
                assert forall|h: int, p: int| #[trigger] before.inside(h, p) implies self.key(h, p)
                    == before.key(h, p) && self.value(h, p) == before.value(h, p) by {
                    self.lemma_entry(h, p);
                    lemma_row_bounds(
                        self.entry(h, p),
                        self.entry(h, p) + 1,
                        self.entries(),
                        self.head_dim as int,
                    );
                    assert(self.key(h, p) =~= before.key(h, p));
                    assert(self.value(h, p) =~= before.value(h, p));
                }
            }
        }
    }

    /// Stores key and value of a head at a position.
    pub fn write_kv(&mut self, pos: usize, head: usize, k: &[T], v: &[T])
        requires
            old(self).wf(),
            old(self).storage is F32,
            old(self).inside(head as int, pos as int),
            k@.len() == old(self).head_dim,
            v@.len() == old(self).head_dim,
        ensures
            final(self).wf(),
            final(self).same_shape(old(self)),
            final(self).allocated(),
            final(self).key(head as int, pos as int) == k@,
            final(self).value(head as int, pos as int) == v@,
            forall|h: int, p: int| #[trigger]
                old(self).inside(h, p) && (h, p) != (head as int, pos as int) ==> final(self).key(
                    h,
                    p,
                ) == old(self).key(h, p) && final(self).value(h, p) == old(self).value(h, p),
            final(self).current_len == if pos >= old(self).current_len {
                (pos + 1) as usize
            } else {
                old(self).current_len
            },
    {
        self.allocate();
        let ghost mid = *self;
        let n: usize = self.entry_number(head, pos);
        let ghost count = self.entries();
        write_row(&mut self.k, n, self.head_dim, k, Ghost(count));
        write_row(&mut self.v, n, self.head_dim, v, Ghost(count));
        if pos >= self.current_len {
            self.current_len = pos + 1;
        }
        proof {
            assert forall|h: int, p: int| #[trigger]
                old(self).inside(h, p) && (h, p) != (head as int, pos as int) implies self.key(h, p)
                == old(self).key(h, p) && self.value(h, p) == old(self).value(h, p) by {
                mid.lemma_entry(h, p);
                mid.lemma_entries_differ(h, p, head as int, pos as int);
                assert(self.key(h, p) == mid.key(h, p));
                assert(self.value(h, p) == mid.value(h, p));
            }
        }
    }

    fn entry_number(&self, head: usize, pos: usize) -> (r: usize)
        requires
            self.wf(),
            self.inside(head as int, pos as int),
        ensures
            r == self.entry(head as int, pos as int),
            r < self.entries(),
    {
        proof {
            self.lemma_entry(head as int, pos as int);
        }
        head * self.max_seq_len + pos
    }

    /// Stores quantised key and value of a head at a position.
    pub fn write_kv_q8(&mut self, pos: usize, head: usize, k: &[u8], v: &[u8])
        requires
            old(self).wf(),
            old(self).storage is Q8_0,
            old(self).inside(head as int, pos as int),
            k@.len() == old(self).q8_size(),
            v@.len() == old(self).q8_size(),
        ensures
            final(self).wf(),
            final(self).same_shape(old(self)),
            final(self).key_q8(head as int, pos as int) == k@,
            final(self).value_q8(head as int, pos as int) == v@,
            forall|h: int, p: int| #[trigger]
                old(self).inside(h, p) && (h, p) != (head as int, pos as int) ==> final(self).key_q8(h, p) == old(self).key_q8(h, p) && final(self).value_q8(h, p) == old(self).value_q8(h, p),
            final(self).current_len == if pos >= old(self).current_len {
                (pos + 1) as usize
            } else {
                old(self).current_len
            },
    {
        let ghost mid = *self;
        let n: usize = self.entry_number(head, pos);
        let size: usize = q8_entry_bytes(self.head_dim);
        let ghost count = self.entries();
        write_row(&mut self.k_q8, n, size, k, Ghost(count));
        write_row(&mut self.v_q8, n, size, v, Ghost(count));
        proof {
            assert forall|h: int, p: int| #[trigger]
                mid.inside(h, p) && (h, p) != (head as int, pos as int) implies self.key_q8(h, p)
                == mid.key_q8(h, p) && self.value_q8(h, p) == mid.value_q8(h, p) by {
                mid.lemma_entry(h, p);
                mid.lemma_entries_differ(h, p, head as int, pos as int);
            }
        }
        if pos >= self.current_len {
            self.current_len = pos + 1;
        }
    }

    /// The first `seq_len` positions of a head lie inside the plain buffers.
    pub open spec fn slice_fits(&self, head: int, seq_len: int) -> bool {
        ||| self.allocated() && head < self.n_kv_heads && seq_len <= self.max_seq_len
        ||| self.entry(head, 0) * self.head_dim + seq_len * self.head_dim <= self.k@.len()
    }

    /// Where the first `seq_len` positions of a head begin and end.
    fn head_span(&self, head: usize, seq_len: usize) -> (r: (usize, usize))
        requires
            self.wf(),
            self.slice_fits(head as int, seq_len as int),
        ensures
            r.0 == self.entry(head as int, 0) * self.head_dim,
            r.1 == r.0 + seq_len * self.head_dim,
            r.0 <= r.1 <= self.k@.len(),
    {
        let ghost (h, m, n, d, s) = (
            head as int,
            self.max_seq_len as int,
            self.n_kv_heads as int,
            self.head_dim as int,
            seq_len as int,
        );
        proof {
            if self.allocated() && head < self.n_kv_heads && seq_len <= self.max_seq_len {
                assert((h * m) * d + s * d <= (n * m) * d) by (nonlinear_arith)
                    requires
                        0 <= h < n,
                        0 <= s <= m,
                        0 <= d,
                {
                    assert(h * m + m <= n * m);
                    assert((h * m + s) * d <= (n * m) * d);
                    assert((h * m + s) * d == (h * m) * d + s * d);
                }
            }
            assert(0 <= h * m && 0 <= (h * m) * d && 0 <= s * d) by (nonlinear_arith)
                requires
                    0 <= h,
                    0 <= m,
                    0 <= s,
                    0 <= d,
            {
            }
            assert(self.k@.len() == self.k.len());
        }
        let start: usize = if self.max_seq_len == 0 || self.head_dim == 0 {
            assert((h * m) * d == 0) by (nonlinear_arith)
                requires
                    m == 0 || d == 0,
            {
            }
            0
        } else {
            assert(h * m <= (h * m) * d) by (nonlinear_arith)
                requires
                    0 <= h * m,
                    1 <= d,
            {
            }
            (head * self.max_seq_len) * self.head_dim
        };
        (start, start + seq_len * self.head_dim)
    }

    /// The keys of the first `seq_len` positions of a head, one behind the other.
    pub fn k_slice(&self, head: usize, seq_len: usize) -> (r: &[T])
        requires
            self.wf(),
            self.storage is F32,
            self.slice_fits(head as int, seq_len as int),
        ensures
            r@ == self.k@.subrange(
                self.entry(head as int, 0) * self.head_dim,
                self.entry(head as int, 0) * self.head_dim + seq_len * self.head_dim,
            ),
    {
        let (start, end) = self.head_span(head, seq_len);
        vstd::slice::slice_subrange(self.k.as_slice(), start, end)
    }

    /// The values of the first `seq_len` positions of a head, one behind the other.
    pub fn v_slice(&self, head: usize, seq_len: usize) -> (r: &[T])
        requires
            self.wf(),
            self.storage is F32,
            self.slice_fits(head as int, seq_len as int),
        ensures
            r@ == self.v@.subrange(
                self.entry(head as int, 0) * self.head_dim,
                self.entry(head as int, 0) * self.head_dim + seq_len * self.head_dim,
            ),
    {
        let (start, end) = self.head_span(head, seq_len);
        vstd::slice::slice_subrange(self.v.as_slice(), start, end)
    }

    /// Forgets all positions.
    pub fn clear(&mut self)
        requires
            old(self).wf(),
        ensures
            final(self).wf(),
            final(self).same_shape(old(self)),
            final(self).current_len == 0,
            final(self).k == old(self).k,
            final(self).v == old(self).v,
            final(self).k_q8 == old(self).k_q8,
            final(self).v_q8 == old(self).v_q8,
    {
        self.current_len = 0;
    }

    /// Keeps the last `keep` positions, which become the first.
    pub fn truncate_left(&mut self, keep: usize)
        requires
            old(self).wf(),
        ensures
            final(self).wf(),
            final(self).same_shape(old(self)),
            final(self).allocated() == old(self).allocated(),
            old(self).storage is F32 ==> final(self).k_q8 == old(self).k_q8 && final(self).v_q8
                == old(self).v_q8,
            old(self).storage is Q8_0 ==> final(self).k == old(self).k && final(self).v == old(
                self,
            ).v,
            old(self).current_len <= keep ==> *final(self) == *old(self),
            old(self).current_len > keep ==> final(self).current_len == keep,
            old(self).current_len > keep && old(self).storage is F32 ==> forall|h: int, p: int|
                #[trigger]
                old(self).inside(h, p) ==> {
                    let q = if p < keep {
                        p + (old(self).current_len - keep)
                    } else {
                        p
                    };
                    final(self).key(h, p) == old(self).key(h, q) && final(self).value(h, p) == old(self).value(h, q)
                },
            old(self).current_len > keep && old(self).storage is Q8_0 ==> forall|h: int, p: int|
                #[trigger]
                old(self).inside(h, p) ==> {
                    let q = if p < keep {
                        p + (old(self).current_len - keep)
                    } else {
                        p
                    };
                    final(self).key_q8(h, p) == old(self).key_q8(h, q) && final(self).value_q8(h, p)
                        == old(self).value_q8(h, q)
                },
    {
        if self.current_len <= keep {
            return ;
        }
        let shift: usize = self.current_len - keep;
        let heads: usize = self.n_kv_heads;
        let steps: usize = self.max_seq_len;
        let ghost before = *self;
        match self.storage {
            KVStorage::F32 => {
                let size: usize = self.head_dim;
                shift_heads(&mut self.k, heads, steps, keep, shift, size);
                shift_heads(&mut self.v, heads, steps, keep, shift, size);
            },
            KVStorage::Q8_0 => {
                let size: usize = q8_entry_bytes(self.head_dim);
                shift_heads(&mut self.k_q8, heads, steps, keep, shift, size);
                shift_heads(&mut self.v_q8, heads, steps, keep, shift, size);
            },
        }
        self.current_len = keep;
        proof {
            assert forall|h: int, p: int| #[trigger] before.inside(h, p) implies in_heads(
                heads as int,
                steps as int,
                h,
                p,
            ) by {}
        }
    }
}

/// A head and a position of a buffer with `heads` heads of `steps` positions.
pub open spec fn in_heads(heads: int, steps: int, h: int, p: int) -> bool {
    0 <= h < heads && 0 <= p < steps
}

/// Moves the positions from `shift` on to the front, `keep` of them, in each head.
fn shift_heads<T: Copy>(
    v: &mut Vec<T>,
    heads: usize,
    steps: usize,
    keep: usize,
    shift: usize,
    size: usize,
)
    requires
        0 < shift,
        keep + shift <= steps,
        heads * steps <= usize::MAX,
        old(v)@.len() == (heads * steps) * size,
    ensures
        final(v)@.len() == old(v)@.len(),
        forall|h: int, p: int| #[trigger]
            in_heads(heads as int, steps as int, h, p) ==> row(
                final(v)@,
                h * steps + p,
                size as int,
            ) == row(
                old(v)@,
                h * steps + if p < keep {
                    p + shift
                } else {
                    p
                },
                size as int,
            ),
{
    let ghost before = v@;
    let ghost count = heads * steps;
    let mut head: usize = 0;
    while head < heads
        invariant
            head <= heads,
            0 < shift,
            keep + shift <= steps,
            count == heads * steps,
            count <= usize::MAX,
            v@.len() == before.len(),
            before.len() == count * size,
            forall|h: int, p: int| #[trigger]
                in_heads(heads as int, steps as int, h, p) ==> row(v@, h * steps + p, size as int)
                    == row(
                    before,
                    h * steps + if h < head && p < keep {
                        p + shift
                    } else {
                        p
                    },
                    size as int,
                ),
        decreases heads - head,
    {
        proof {
            assert(0 <= head * steps && head * steps + steps <= count) by (nonlinear_arith)
                requires
                    0 <= head < heads,
                    0 <= steps,
                    count == heads * steps,
            {
            }
        }
        let base: usize = head * steps;
        let ghost mid = v@;
        shift_rows(v, base, keep, shift, size, Ghost(count));
        proof {
            assert forall|h: int, p: int| #[trigger]
                in_heads(heads as int, steps as int, h, p) implies row(
                v@,
                h * steps + p,
                size as int,
            ) == row(
                before,
                h * steps + if h < head + 1 && p < keep {
                    p + shift
                } else {
                    p
                },
                size as int,
            ) by {
                let g = head as int;
                assert(0 <= h * steps && h * steps + steps <= count && (h < g ==> h * steps + steps
                    <= g * steps) && (g < h ==> g * steps + steps <= h * steps)) by (nonlinear_arith)
                    requires
                        0 <= h < heads,
                        0 <= g < heads,
                        0 <= steps,
                        count == heads * steps,
                {
                }
                assert(in_heads(heads as int, steps as int, h, p));
                if h == g && p < keep {
                    assert(in_heads(heads as int, steps as int, h, p + shift));
                    assert(row(v@, h * steps + p, size as int) == row(
                        mid,
                        h * steps + p + shift,
                        size as int,
                    ));
                } else {
                    assert(row(v@, h * steps + p, size as int) == row(
                        mid,
                        h * steps + p,
                        size as int,
                    ));
                }
            }
        }
        head += 1;
    }
}

/// The slice of a head's keys has the key of each position as its rows.
pub proof fn law_slice_lists_the_entries<T: Copy>(c: KVCache<T>, head: int, seq_len: int, pos: int)
    requires
        c.wf(),
        c.allocated(),
        c.inside(head, pos),
        pos < seq_len <= c.max_seq_len,
    ensures
        ({
            let start = c.entry(head, 0) * c.head_dim;
            let end = start + seq_len * c.head_dim;
            &&& row(c.k@.subrange(start, end), pos, c.head_dim as int) == c.key(head, pos)
            &&& row(c.v@.subrange(start, end), pos, c.head_dim as int) == c.value(head, pos)
        }),
{
    let d = c.head_dim as int;
    let start = c.entry(head, 0) * d;
    let end = start + seq_len * d;
    c.lemma_entry(head, pos);
    lemma_row_bounds(pos, seq_len, seq_len, d);
    lemma_row_bounds(c.entry(head, pos), c.entry(head, pos) + 1, c.entries(), d);
    let (h, m, n) = (head, c.max_seq_len as int, c.n_kv_heads as int);
    assert((h * m + pos) * d == (h * m + 0) * d + pos * d && (h * m + 0) * d + seq_len * d <= (n * m)
        * d && 0 <= (h * m + 0) * d) by (nonlinear_arith)
        requires
            0 <= h < n,
            0 <= pos < seq_len <= m,
            0 <= d,
    {
        assert(h * m + m <= n * m);
        assert((h * m + seq_len) * d <= (n * m) * d);
        assert((h * m + seq_len) * d == (h * m) * d + seq_len * d);
        assert((h * m + pos) * d == (h * m) * d + pos * d);
    }
    assert(row(c.k@.subrange(start, end), pos, d) =~= c.key(head, pos));
    assert(row(c.v@.subrange(start, end), pos, d) =~= c.value(head, pos));
}

/// The bytes that a quantised cache accounts for are the bytes that it holds.
pub proof fn law_quantised_memory_is_exact<T: Copy>(c: KVCache<T>)
    requires
        c.wf(),
        c.storage is Q8_0,
    ensures
        c.bytes_needed() == c.k_q8@.len() + c.v_q8@.len(),
{
}

} // verus!
