//! Moving values about: padding, cutting columns, enlarging.
use vstd::arithmetic::div_mod::lemma_fundamental_div_mod_converse;
use vstd::prelude::*;

verus! {

/// The smaller of two numbers.
pub open spec fn smaller(a: int, b: int) -> int {
    if a < b {
        a
    } else {
        b
    }
}

/// `seq_len` rows of `src_dim` elements, each cut or padded to `dst_dim`.
pub open spec fn padded<T>(src: Seq<T>, seq_len: int, src_dim: int, dst_dim: int, zero: T) -> Seq<T> {
    Seq::new(
        (seq_len * dst_dim) as nat,
        |k: int|
            if k % dst_dim < src_dim {
                src[k / dst_dim * src_dim + k % dst_dim]
            } else {
                zero
            },
    )
}

/// `seq_len` rows of `src_dim` elements, each cut or padded to `dst_dim`.
pub fn zero_pad<T: Copy>(src: &[T], seq_len: usize, src_dim: usize, dst_dim: usize, zero: T) -> (r:
    Vec<T>)
    requires
        seq_len > 0 ==> (seq_len - 1) * src_dim + smaller(src_dim as int, dst_dim as int)
            <= src@.len(),
    ensures
        r@ == padded(src@, seq_len as int, src_dim as int, dst_dim as int, zero),
{
    let mut out: Vec<T> = Vec::new();
    let ghost (a, b) = (src_dim as int, dst_dim as int);
    let mut s: usize = 0;
    assert(0 * b == 0);
    while s < seq_len
        invariant
            s <= seq_len,
            a == src_dim && b == dst_dim,
            seq_len > 0 ==> (seq_len - 1) * a + smaller(a, b) <= src@.len(),
            out@.len() == s * b,
            forall|k: int|
                0 <= k < out@.len() ==> #[trigger] out@[k] == if k % b < a {
                    src@[k / b * a + k % b]
                } else {
                    zero
                },
        decreases seq_len - s,
    {
        let mut j: usize = 0;
        while j < dst_dim
            invariant
                s < seq_len,
                j <= dst_dim,
                a == src_dim && b == dst_dim,
                (seq_len - 1) * a + smaller(a, b) <= src@.len(),
                out@.len() == s * b + j,
                forall|k: int|
                    0 <= k < out@.len() ==> #[trigger] out@[k] == if k % b < a {
                        src@[k / b * a + k % b]
                    } else {
                        zero
                    },
            decreases dst_dim - j,
        {
            proof {
                lemma_fundamental_div_mod_converse(out@.len() as int, b, s as int, j as int);
                assert(0 <= s * a <= (seq_len - 1) * a) by (nonlinear_arith)
                    requires
                        0 <= s <= seq_len - 1,
                        0 <= a,
                {
                }
                assert(src@.len() == src.len());
            }
            if j < src_dim {
                out.push(src[s * src_dim + j]);
            } else {
                out.push(zero);
            }
            j += 1;
        }
        s += 1;
        assert(s * b == (s - 1) * b + b) by (nonlinear_arith);
    }
    assert(out@ =~= padded(src@, seq_len as int, a, b, zero));
    out
}

/// The columns from `from` on, `len` of them, of `rows` rows of `width` elements.
pub open spec fn columns<T>(src: Seq<T>, rows: int, width: int, from: int, len: int) -> Seq<T> {
    Seq::new((rows * len) as nat, |k: int| src[k / len * width + from + k % len])
}

/// The columns from `from` on, `len` of them, of `rows` rows of `width` elements.
pub fn take_columns<T: Copy>(src: &[T], rows: usize, width: usize, from: usize, len: usize) -> (r:
    Vec<T>)
    requires
        from + len <= width,
        rows * width <= src@.len(),
    ensures
        r@ == columns(src@, rows as int, width as int, from as int, len as int),
{
    let mut out: Vec<T> = Vec::new();
    let ghost (w, f, l) = (width as int, from as int, len as int);
    let mut s: usize = 0;
    assert(0 * l == 0);
    while s < rows
        invariant
            s <= rows,
            w == width && f == from && l == len,
            f + l <= w,
            rows * w <= src@.len(),
            out@.len() == s * l,
            forall|k: int|
                0 <= k < out@.len() ==> #[trigger] out@[k] == src@[k / l * w + f + k % l],
        decreases rows - s,
    {
        let mut j: usize = 0;
        while j < len
            invariant
                s < rows,
                j <= len,
                w == width && f == from && l == len,
                f + l <= w,
                rows * w <= src@.len(),
                out@.len() == s * l + j,
                forall|k: int|
                    0 <= k < out@.len() ==> #[trigger] out@[k] == src@[k / l * w + f + k % l],
            decreases len - j,
        {
            proof {
                lemma_fundamental_div_mod_converse(out@.len() as int, l, s as int, j as int);
                assert(0 <= s * w && s * w + w <= rows * w) by (nonlinear_arith)
                    requires
                        0 <= s < rows,
                        0 <= w,
                {
                }
                assert(src@.len() == src.len());
            }
            out.push(src[s * width + from + j]);
            j += 1;
        }
        s += 1;
        assert(s * l == (s - 1) * l + l) by (nonlinear_arith);
    }
    assert(out@ =~= columns(src@, rows as int, w, f, l));
    out
}

/// An image of `lh` by `lw` points enlarged to `h` by `w` points, each point becoming a block of
/// equal points; what the blocks do not cover is `zero`.
pub open spec fn enlarged<T>(src: Seq<T>, lh: int, lw: int, c: int, h: int, w: int, zero: T) -> Seq<
    T,
> {
    let (sh, sw) = (h / lh, w / lw);
    Seq::new(
        (h * w * c) as nat,
        |k: int|
            {
                let (y, x) = (k / c / w, k / c % w);
                if y < lh * sh && x < lw * sw {
                    src[(y / sh * lw + x / sw) * c + k % c]
                } else {
                    zero
                }
            },
    )
}

/// Enlarges an image of `lh` by `lw` points with `c` values each to `h` by `w` points.
fn repeat_points<T: Copy>(
    src: &[T],
    lh: usize,
    lw: usize,
    c: usize,
    h: usize,
    w: usize,
    zero: T,
) -> (r: Vec<T>)
    requires
        0 < lh,
        0 < lw,
        lh <= h && lw <= w ==> lh * lw * c <= src@.len(),
        h * w * c <= usize::MAX,
        h * w <= usize::MAX,
    ensures
        r@ == enlarged(src@, lh as int, lw as int, c as int, h as int, w as int, zero),
{
    let sh: usize = h / lh;
    let sw: usize = w / lw;
    let mut out: Vec<T> = Vec::new();
    let ghost want = enlarged(src@, lh as int, lw as int, c as int, h as int, w as int, zero);
    proof {
        assert(0 <= lh * sh <= h && 0 <= lw * sw <= w) by (nonlinear_arith)
            requires
                0 < lh,
                0 < lw,
                sh == h as int / lh as int,
                sw == w as int / lw as int,
        {
        }
    }
    let mut p: usize = 0;
    assert(0 * c == 0);
    while p < h * w
        invariant
            0 < lh,
            0 < lw,
            lh <= h && lw <= w ==> lh * lw * c <= src@.len(),
            h * w * c <= usize::MAX,
            h * w <= usize::MAX,
            sh == h as int / lh as int,
            sw == w as int / lw as int,
            0 <= lh * sh <= h,
            0 <= lw * sw <= w,
            want == enlarged(src@, lh as int, lw as int, c as int, h as int, w as int, zero),
            p <= h * w,
            out@.len() == p * c,
            forall|k: int| 0 <= k < out@.len() ==> #[trigger] out@[k] == want[k],
        decreases h * w - p,
    {
        proof {
            assert(0 < w) by (nonlinear_arith)
                requires
                    p < h * w,
                    0 <= p,
                    0 <= w,
            {
            }
        }
        let y: usize = p / w;
        let x: usize = p % w;
        let covered = y < lh * sh && x < lw * sw;
        let ghost base = (y as int / sh as int) * lw + x as int / sw as int;
        proof {
            if covered {
                lemma_cover(y as int, x as int, lh as int, lw as int, sh as int, sw as int);
                assert(lh <= h && lw <= w) by (nonlinear_arith)
                    requires
                        0 < lh,
                        0 < lw,
                        0 < sh,
                        0 < sw,
                        lh * sh <= h,
                        lw * sw <= w,
                {
                }
                assert(0 <= base * c && base * c + c <= lh * lw * c) by (nonlinear_arith)
                    requires
                        0 <= base < lh * lw,
                        0 <= c,
                {
                }
            }
            assert(p * c + c <= h * w * c) by (nonlinear_arith)
                requires
                    p < h * w,
                    0 <= c,
            {
            }
        }
        let mut j: usize = 0;
        while j < c
            invariant
                0 < lh,
                0 < lw,
                0 < w,
                covered ==> lh * lw * c <= src@.len(),
                p < h * w,
                p * c + c <= h * w * c,
                y == p as int / w as int,
                x == p as int % w as int,
                sh == h as int / lh as int,
                sw == w as int / lw as int,
                covered == (y < lh * sh && x < lw * sw),
                base == (y as int / sh as int) * lw + x as int / sw as int,
                covered ==> 0 < sh && 0 < sw && 0 <= base && 0 <= base * c && base * c + c <= lh
                    * lw * c,
                want == enlarged(src@, lh as int, lw as int, c as int, h as int, w as int, zero),
                j <= c,
                out@.len() == p * c + j,
                forall|k: int| 0 <= k < out@.len() ==> #[trigger] out@[k] == want[k],
            decreases c - j,
        {
            proof {
                lemma_fundamental_div_mod_converse(out@.len() as int, c as int, p as int, j as int);
                assert(src@.len() == src.len());
                if covered {
                    assert(base <= base * c) by (nonlinear_arith)
                        requires
                            0 <= base,
                            1 <= c,
                    {
                    }
                    assert(0 <= (y as int / sh as int) * lw <= base) by (nonlinear_arith)
                        requires
                            base == (y as int / sh as int) * lw + x as int / sw as int,
                            0 <= y as int / sh as int,
                            0 <= x as int / sw as int,
                            0 < lw,
                    {
                    }
                }
            }
            if covered {
                out.push(src[(y / sh * lw + x / sw) * c + j]);
            } else {
                out.push(zero);
            }
            j += 1;
        }
        p += 1;
        assert(p * c == (p - 1) * c + c) by (nonlinear_arith);
    }
    assert(out@ =~= want);
    out
}

/// A covered point lies in a block of the smaller image.
proof fn lemma_cover(y: int, x: int, lh: int, lw: int, sh: int, sw: int)
    requires
        0 <= y < lh * sh,
        0 <= x < lw * sw,
        0 < lh,
        0 < lw,
        0 <= sh,
        0 <= sw,
    ensures
        0 < sh,
        0 < sw,
        0 <= y / sh < lh,
        0 <= x / sw < lw,
        0 <= y / sh * lw + x / sw < lh * lw,
{
    assert(0 < sh && 0 < sw) by (nonlinear_arith)
        requires
            0 <= y < lh * sh,
            0 <= x < lw * sw,
            0 <= sh,
            0 <= sw,
    {
    }
    assert(0 <= y / sh < lh && 0 <= x / sw < lw) by (nonlinear_arith)
        requires
            0 <= y < lh * sh,
            0 <= x < lw * sw,
            0 < sh,
            0 < sw,
    {
    }
    let (a, b) = (y / sh, x / sw);
    assert(0 <= a * lw + b < lh * lw) by (nonlinear_arith)
        requires
            0 <= a < lh,
            0 <= b < lw,
    {
    }
}

/// Enlarges an image of `h` by `w` points with `c` values each to twice its height and width.
pub fn upsample_nearest_2x<T: Copy>(src: &[T], h: usize, w: usize, c: usize) -> (r: Vec<T>)
    requires
        h * w * c <= src@.len(),
        (2 * h) * (2 * w) * c <= usize::MAX,
        (2 * h) * (2 * w) <= usize::MAX,
        2 * h <= usize::MAX,
        2 * w <= usize::MAX,
    ensures
        r@ == Seq::new(
            ((2 * h) * (2 * w) * c) as nat,
            |k: int| src@[(k / c as int / (2 * w) / 2 * w + k / c as int % (2 * w) / 2) * c + k % c as int],
        ),
{
    if h == 0 || w == 0 || src.len() == 0 {
        let empty: Vec<T> = Vec::new();
        assert((2 * h) * (2 * w) * c == 0) by (nonlinear_arith)
            requires
                h == 0 || w == 0 || h * w * c <= 0,
        {
        }
        assert(empty@ =~= Seq::new(
            ((2 * h) * (2 * w) * c) as nat,
            |k: int| src@[(k / c as int / (2 * w) / 2 * w + k / c as int % (2 * w) / 2) * c + k % c as int],
        ));
        return empty;
    }
    let r = repeat_points(src, h, w, c, 2 * h, 2 * w, src[0]);
    proof {
        let (hh, ww, cc) = (h as int, w as int, c as int);
        assert((2 * hh) / hh == 2 && (2 * ww) / ww == 2) by (nonlinear_arith)
            requires
                0 < hh,
                0 < ww,
        {
        }
        let want = Seq::new(
            ((2 * hh) * (2 * ww) * cc) as nat,
            |k: int| src@[(k / cc / (2 * ww) / 2 * ww + k / cc % (2 * ww) / 2) * cc + k % cc],
        );
        assert forall|k: int| 0 <= k < r@.len() implies r@[k] == want[k] by {
            lemma_point(k, hh, ww, cc);
        }
        assert(r@ =~= want);
    }
    r
}

/// A value of the enlarged image belongs to a point inside it.
proof fn lemma_point(k: int, h: int, w: int, c: int)
    requires
        0 <= k < (2 * h) * (2 * w) * c,
        0 < h,
        0 < w,
        0 <= c,
    ensures
        k / c / (2 * w) < h * 2,
        k / c % (2 * w) < w * 2,
{
    let n = (2 * h) * (2 * w);
    assert(0 < c) by (nonlinear_arith)
        requires
            0 <= k < n * c,
            0 <= c,
    {
    }
    assert(0 <= k / c < n) by (nonlinear_arith)
        requires
            0 <= k < n * c,
            0 < c,
    {
    }
    let p = k / c;
    let m = 2 * w;
    assert(p / m < 2 * h && p % m < m) by (nonlinear_arith)
        requires
            0 <= p < (2 * h) * m,
            0 < m,
    {
    }
}

/// Opaque pixels out of colours: three bytes each, then 255.
pub open spec fn opaque_pixels(rgb: Seq<u8>, n: int) -> Seq<u8> {
    Seq::new(
        (4 * n) as nat,
        |k: int|
            if k % 4 == 3 {
                255u8
            } else {
                rgb[3 * (k / 4) + k % 4]
            },
    )
}

/// Opaque pixels out of `n` colours of three bytes each.
pub fn with_alpha(rgb: &[u8], n: usize) -> (r: Vec<u8>)
    requires
        3 * n <= rgb@.len(),
        4 * n <= usize::MAX,
    ensures
        r@ == opaque_pixels(rgb@, n as int),
{
    let mut out: Vec<u8> = Vec::new();
    let mut i: usize = 0;
    while i < n
        invariant
            i <= n,
            3 * n <= rgb@.len(),
            4 * n <= usize::MAX,
            out@.len() == 4 * i,
            forall|k: int| 0 <= k < 4 * i ==> #[trigger] out@[k] == opaque_pixels(rgb@, n as int)[k],
        decreases n - i,
    {
        assert(rgb@.len() == rgb.len());
        out.push(rgb[3 * i]);
        out.push(rgb[3 * i + 1]);
        out.push(rgb[3 * i + 2]);
        out.push(255);
        i += 1;
    }
    assert(out@ =~= opaque_pixels(rgb@, n as int));
    out
}

/// A point of an image under one of the nine places of a three-by-three window.
#[derive(Clone, Copy, Debug, PartialEq, Eq, Structural)]
pub struct Tap {
    /// The place in the window, row by row.
    pub place: usize,
    /// The point in the image, row by row.
    pub point: usize,
}

/// The point that place `k` of the window around `(y, x)` lies over lies inside the image.
pub open spec fn tap_inside(h: int, w: int, y: int, x: int, k: int) -> bool {
    0 <= y + k / 3 - 1 < h && 0 <= x + k % 3 - 1 < w
}

/// The point that place `k` of the window around `(y, x)` lies over.
pub open spec fn tap_at(w: int, y: int, x: int, k: int) -> Tap {
    Tap { place: k as usize, point: ((y + k / 3 - 1) * w + x + k % 3 - 1) as usize }
}

/// The points under the first `n` places of the window around `(y, x)`.
pub open spec fn taps_before(h: int, w: int, y: int, x: int, n: nat) -> Seq<Tap>
    decreases n,
{
    if n == 0 {
        Seq::empty()
    } else {
        let before = taps_before(h, w, y, x, (n - 1) as nat);
        if tap_inside(h, w, y, x, n - 1) {
            before.push(tap_at(w, y, x, n - 1))
        } else {
            before
        }
    }
}

/// The points of an `h` by `w` image under the window around `(y, x)`.
pub fn window(h: usize, w: usize, y: usize, x: usize) -> (r: Vec<Tap>)
    requires
        y < h,
        x < w,
        h * w <= usize::MAX,
    ensures
        r@ == taps_before(h as int, w as int, y as int, x as int, 9),
{
    let mut out: Vec<Tap> = Vec::new();
    let mut k: usize = 0;
    while k < 9
        invariant
            k <= 9,
            y < h,
            x < w,
            h * w <= usize::MAX,
            out@ == taps_before(h as int, w as int, y as int, x as int, k as nat),
        decreases 9 - k,
    {
        let (ky, kx): (usize, usize) = (k / 3, k % 3);
        let above = ky == 0 && y == 0;
        let below = ky == 2 && y == h - 1;
        let before = kx == 0 && x == 0;
        let behind = kx == 2 && x == w - 1;
        if !above && !below && !before && !behind {
            let row: usize = if ky == 0 { y - 1 } else { y + (ky - 1) };
            let col: usize = if kx == 0 { x - 1 } else { x + (kx - 1) };
            assert(0 <= row * w && row * w + w <= h * w) by (nonlinear_arith)
                requires
                    0 <= row < h,
                    0 <= w,
            {
            }
            out.push(Tap { place: k, point: row * w + col });
        }
        k += 1;
    }
    out
}

/// Every point under a window lies in the image.
pub proof fn law_window_stays_inside(h: int, w: int, y: int, x: int, n: nat, i: int)
    requires
        0 <= y < h,
        0 <= x < w,
        h * w <= usize::MAX,
        n <= 9,
        0 <= i < taps_before(h, w, y, x, n).len(),
    ensures
        taps_before(h, w, y, x, n)[i].place < n,
        taps_before(h, w, y, x, n)[i].point < h * w,
    decreases n,
{
    if n > 0 {
        let before = taps_before(h, w, y, x, (n - 1) as nat);
        if i < before.len() {
            law_window_stays_inside(h, w, y, x, (n - 1) as nat, i);
        } else {
            let (row, col) = (y + (n - 1) / 3 - 1, x + (n - 1) % 3 - 1);
            assert(0 <= row * w + col < h * w) by (nonlinear_arith)
                requires
                    0 <= row < h,
                    0 <= col < w,
            {
            }
        }
    }
}

/// A pair of neighbouring values that is rotated by a position times a power of the base, whose
/// exponent is minus `num` over `den`.
#[derive(Clone, Copy, Debug, PartialEq, Eq, Structural)]
pub struct RotaryPair {
    pub at: usize,
    pub num: usize,
    pub den: usize,
    /// The position is the row, not the column.
    pub by_row: bool,
}

/// The pair `i` of an axis of `d` values that begins at `start` in a head of `head_dim` values.
pub open spec fn pair_of(head_dim: int, start: int, d: int, i: int) -> RotaryPair {
    RotaryPair {
        at: (start + 2 * i) as usize,
        num: (2 * i) as usize,
        den: d as usize,
        by_row: start < head_dim / 2,
    }
}

/// The sum of the first `n` axes.
pub open spec fn axes_before(axes: Seq<usize>, n: nat) -> int
    decreases n,
{
    if n == 0 {
        0
    } else {
        axes_before(axes, (n - 1) as nat) + axes[n - 1]
    }
}

/// The pairs of the first `n` axes.
pub open spec fn pairs_before(head_dim: int, axes: Seq<usize>, n: nat) -> Seq<RotaryPair>
    decreases n,
{
    if n == 0 {
        Seq::empty()
    } else {
        pairs_before(head_dim, axes, (n - 1) as nat) + Seq::new(
            (axes[n - 1] / 2) as nat,
            |i: int|
                pair_of(head_dim, axes_before(axes, (n - 1) as nat), axes[n - 1] as int, i),
        )
    }
}

proof fn lemma_axes_grow(axes: Seq<usize>, n: nat, m: nat)
    requires
        n <= m <= axes.len(),
    ensures
        0 <= axes_before(axes, n) <= axes_before(axes, m),
    decreases m,
{
    if n < m {
        lemma_axes_grow(axes, n, (m - 1) as nat);
    } else if m > 0 {
        lemma_axes_grow(axes, (m - 1) as nat, (m - 1) as nat);
    }
}

/// The pairs of a head of `head_dim` values that is divided into axes.
pub fn rotary_pairs(head_dim: usize, axes: &[usize]) -> (r: Vec<RotaryPair>)
    requires
        axes_before(axes@, axes@.len()) <= usize::MAX,
    ensures
        r@ == pairs_before(head_dim as int, axes@, axes@.len()),
{
    let mut out: Vec<RotaryPair> = Vec::new();
    let mut start: usize = 0;
    let mut a: usize = 0;
    while a < axes.len()
        invariant
            a <= axes@.len(),
            axes_before(axes@, axes@.len()) <= usize::MAX,
            start == axes_before(axes@, a as nat),
            out@ == pairs_before(head_dim as int, axes@, a as nat),
        decreases axes@.len() - a,
    {
        let d: usize = axes[a];
        let ghost before = out@;
        proof {
            lemma_axes_grow(axes@, (a + 1) as nat, axes@.len());
        }
        let mut i: usize = 0;
        while i < d / 2
            invariant
                i <= d / 2,
                start + d <= usize::MAX,
                out@ == before + Seq::new(
                    i as nat,
                    |j: int| pair_of(head_dim as int, start as int, d as int, j),
                ),
            decreases d / 2 - i,
        {
            out.push(
                RotaryPair {
                    at: start + 2 * i,
                    num: 2 * i,
                    den: d,
                    by_row: start < head_dim / 2,
                },
            );
            i += 1;
            assert(out@ =~= before + Seq::new(
                i as nat,
                |j: int| pair_of(head_dim as int, start as int, d as int, j),
            ));
        }
        assert(out@ =~= pairs_before(head_dim as int, axes@, (a + 1) as nat));
        start = start + d;
        a += 1;
    }
    out
}

/// Every pair lies inside the axes.
pub proof fn law_pairs_stay_inside(head_dim: int, axes: Seq<usize>, n: nat, i: int)
    requires
        n <= axes.len(),
        axes_before(axes, axes.len()) <= usize::MAX,
        0 <= i < pairs_before(head_dim, axes, n).len(),
    ensures
        pairs_before(head_dim, axes, n)[i].at + 1 < axes_before(axes, n),
    decreases n,
{
    if n > 0 {
        let before = pairs_before(head_dim, axes, (n - 1) as nat);
        lemma_axes_grow(axes, (n - 1) as nat, n);
        lemma_axes_grow(axes, n, axes.len());
        if i < before.len() {
            law_pairs_stay_inside(head_dim, axes, (n - 1) as nat, i);
        } else {
            let j = i - before.len();
            assert(pairs_before(head_dim, axes, n)[i] == pair_of(
                head_dim,
                axes_before(axes, (n - 1) as nat),
                axes[n - 1] as int,
                j,
            ));
        }
    }
}

} // verus!
