//! Buffers cut into rows of equal length.
use vstd::prelude::*;

verus! {

/// Row `n` of a buffer with rows of `size` elements.
pub open spec fn row<T>(s: Seq<T>, n: int, size: int) -> Seq<T> {
    s.subrange(n * size, n * size + size)
}

/// A buffer holds `count` rows of `size` elements.
pub open spec fn holds_rows(len: int, count: int, size: int) -> bool {
    count * size <= len
}

/// Row bounds lie in order and inside the buffer.
pub proof fn lemma_row_bounds(n: int, m: int, count: int, size: int)
    requires
        0 <= n < m <= count,
        0 <= size,
    ensures
        0 <= n * size,
        n * size + size <= m * size <= count * size,
{
    assert(0 <= n * size && n * size + size <= m * size && m * size <= count * size)
        by (nonlinear_arith)
        requires
            0 <= n < m <= count,
            0 <= size,
    {
    }
}

/// Overwrites row `n`.
pub fn write_row<T: Copy>(v: &mut Vec<T>, n: usize, size: usize, data: &[T], Ghost(count): Ghost<int>)
    requires
        n < count,
        holds_rows(old(v)@.len() as int, count, size as int),
        data@.len() == size,
    ensures
        final(v)@.len() == old(v)@.len(),
        row(final(v)@, n as int, size as int) == data@,
        forall|m: int|
            0 <= m < count && m != n ==> #[trigger] row(final(v)@, m, size as int) == row(
                old(v)@,
                m,
                size as int,
            ),
{
    proof {
        lemma_row_bounds(n as int, n + 1, count, size as int);
        assert(v@.len() == v.len());
    }
    let base: usize = n * size;
    let ghost before = v@;
    let mut i: usize = 0;
    while i < size
        invariant
            i <= size,
            data@.len() == size,
            base == n * size,
            base + size <= v.len(),
            v@.len() == before.len(),
            forall|j: int| base <= j < base + i ==> v@[j] == data@[j - base],
            forall|j: int|
                0 <= j < v@.len() && !(base <= j < base + i) ==> #[trigger] v@[j] == before[j],
        decreases size - i,
    {
        v.set(base + i, data[i]);
        i += 1;
    }
    proof {
        assert(row(v@, n as int, size as int) =~= data@);
        assert forall|m: int| 0 <= m < count && m != n implies #[trigger] row(v@, m, size as int)
            == row(before, m, size as int) by {
            lemma_row_bounds(m, m + 1, count, size as int);
            if m < n {
                lemma_row_bounds(m, n as int, count, size as int);
            } else {
                lemma_row_bounds(n as int, m, count, size as int);
            }
            assert(row(v@, m, size as int) =~= row(before, m, size as int));
        }
    }
}

/// Copies row `from` over row `to`.
pub fn copy_row<T: Copy>(v: &mut Vec<T>, from: usize, to: usize, size: usize, Ghost(count): Ghost<
    int,
>)
    requires
        from < count,
        to < count,
        from != to,
        holds_rows(old(v)@.len() as int, count, size as int),
    ensures
        final(v)@.len() == old(v)@.len(),
        row(final(v)@, to as int, size as int) == row(old(v)@, from as int, size as int),
        forall|m: int|
            0 <= m < count && m != to ==> #[trigger] row(final(v)@, m, size as int) == row(
                old(v)@,
                m,
                size as int,
            ),
{
    proof {
        lemma_row_bounds(from as int, from + 1, count, size as int);
        assert(v@.len() == v.len());
    }
    let start: usize = from * size;
    let ghost before = v@;
    let copy = slice_copy(v.as_slice(), start, size);
    write_row(v, to, size, copy.as_slice(), Ghost(count));
}

/// The `n` elements from `start` on.
pub fn slice_copy<T: Copy>(s: &[T], start: usize, n: usize) -> (r: Vec<T>)
    requires
        start + n <= s@.len(),
    ensures
        r@ == s@.subrange(start as int, start + n),
{
    let mut out: Vec<T> = Vec::new();
    let mut i: usize = 0;
    assert(start + n <= s.len());
    while i < n
        invariant
            i <= n,
            start + n <= s.len(),
            out@ == s@.subrange(start as int, start + i),
        decreases n - i,
    {
        out.push(s[start + i]);
        i += 1;
        assert(s@.subrange(start as int, start + i) =~= s@.subrange(
            start as int,
            start + i - 1,
        ).push(s@[start + i - 1]));
    }
    out
}

/// Moves `keep` rows down by `shift`, within the rows that start at `base`.
pub fn shift_rows<T: Copy>(
    v: &mut Vec<T>,
    base: usize,
    keep: usize,
    shift: usize,
    size: usize,
    Ghost(count): Ghost<int>,
)
    requires
        base + keep + shift <= count,
        count <= usize::MAX,
        0 < shift,
        holds_rows(old(v)@.len() as int, count, size as int),
    ensures
        final(v)@.len() == old(v)@.len(),
        forall|i: int|
            base <= i < base + keep ==> #[trigger] row(final(v)@, i, size as int) == row(
                old(v)@,
                i + shift,
                size as int,
            ),
        forall|m: int|
            0 <= m < count && !(base <= m < base + keep) ==> #[trigger] row(
                final(v)@,
                m,
                size as int,
            ) == row(old(v)@, m, size as int),
{
    let ghost before = v@;
    let mut i: usize = 0;
    while i < keep
        invariant
            i <= keep,
            0 < shift,
            base + keep + shift <= count,
            count <= usize::MAX,
            v@.len() == before.len(),
            holds_rows(v@.len() as int, count, size as int),
            forall|m: int|
                base <= m < base + i ==> #[trigger] row(v@, m, size as int) == row(
                    before,
                    m + shift,
                    size as int,
                ),
            forall|m: int|
                0 <= m < count && !(base <= m < base + i) ==> #[trigger] row(v@, m, size as int)
                    == row(before, m, size as int),
        decreases keep - i,
    {
        copy_row(v, base + i + shift, base + i, size, Ghost(count));
        i += 1;
    }
}

/// A buffer of `n` equal elements.
pub fn filled<T: Copy>(x: T, n: usize) -> (r: Vec<T>)
    ensures
        r@ == Seq::new(n as nat, |i: int| x),
{
    let mut out: Vec<T> = Vec::new();
    let mut i: usize = 0;
    while i < n
        invariant
            i <= n,
            out@.len() == i,
            forall|j: int| 0 <= j < i ==> out@[j] == x,
        decreases n - i,
    {
        out.push(x);
        i += 1;
    }
    assert(out@ =~= Seq::new(n as nat, |i: int| x));
    out
}

} // verus!
