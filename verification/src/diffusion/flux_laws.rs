//! Blocks of the image transformer stay inside their buffers.
use vstd::prelude::*;

use crate::diffusion::flux::{
    double_attention, double_block, double_inputs, double_outputs, feed_forward,
    projected, q2_rows, single_block, FluxBuf, FluxStep, FluxWeight, Stream,
};
use crate::diffusion::weights::StoredModel;

verus! {

/// Parts of a stream's modulation vector.
pub open spec fn parts(stream: Stream) -> int {
    if stream is Single {
        3
    } else {
        6
    }
}

/// The columns of a quantised weight that is there.
pub open spec fn q2_cols(w: Map<Seq<char>, StoredModel>, weight: FluxWeight, idx: int) -> int {
    w[weight.full_name(idx)]->Q2_cols as int
}

/// What blocks are run on: weights, a block's number, the width of a row of the streams and that
/// of all heads together.
pub struct BlockModel {
    pub w: Map<Seq<char>, StoredModel>,
    pub idx: int,
    pub d: int,
    pub n: int,
}

/// A filled buffer holds at least `n` values.
pub open spec fn holds(l: Map<FluxBuf, int>, b: FluxBuf, n: int) -> bool {
    l.contains_key(b) && n <= l[b]
}

/// The step reads only what the buffers hold, given how many values each holds.
pub open spec fn step_ok(m: BlockModel, step: FluxStep, l: Map<FluxBuf, int>) -> bool {
    match step {
        FluxStep::Zero { .. } => true,
        FluxStep::Modulate { stream, from, rows, shift, scale, .. } => {
            holds(l, from, rows * m.d) && shift < parts(stream) && scale < parts(stream)
        },
        FluxStep::Project { weight, from, batch, width, .. } => {
            q2_rows(m.w, weight, m.idx) == Some(width) && holds(
                l,
                from,
                batch * q2_cols(m.w, weight, m.idx),
            )
        },
        FluxStep::Accumulate { from, to } => {
            l.contains_key(from) && l.contains_key(to) && l[from] == l[to]
        },
        FluxStep::Rotate { q, k, rows } => holds(l, q, rows * m.n) && holds(l, k, rows * m.n),
        FluxStep::Join { first, second, .. } => l.contains_key(first) && l.contains_key(second),
        FluxStep::Attend { q, k, v, keys, .. } => {
            l.contains_key(q) && holds(l, k, keys * m.n) && holds(l, v, keys * m.n)
        },
        FluxStep::Columns { from, rows, width, start, len, .. } => {
            holds(l, from, rows * width) && start + len <= width
        },
        FluxStep::Activate { gate, up } => {
            l.contains_key(gate) && l.contains_key(up) && l[gate] == l[up]
        },
        FluxStep::Residual { stream, part, from, more, to, rows } => {
            &&& holds(l, from, rows * m.d)
            &&& holds(l, to, rows * m.d)
            &&& more matches Some(b) ==> holds(l, b, rows * m.d)
            &&& part < parts(stream)
        },
    }
}

/// How many values each buffer holds behind the step.
pub open spec fn lens_after(step: FluxStep, l: Map<FluxBuf, int>) -> Map<FluxBuf, int> {
    match step {
        FluxStep::Zero { to, len } => l.insert(to, len as int),
        FluxStep::Modulate { from, to, .. } => l.insert(to, l[from]),
        FluxStep::Project { to, batch, width, .. } => l.insert(to, batch * width),
        FluxStep::Join { first, second, to } => l.insert(to, l[first] + l[second]),
        FluxStep::Attend { q, to, .. } => l.insert(to, l[q]),
        FluxStep::Columns { to, rows, len, .. } => l.insert(to, rows * len),
        _ => l,
    }
}

/// How many values each buffer holds behind a run of steps.
pub open spec fn lens_behind(steps: Seq<FluxStep>, l: Map<FluxBuf, int>) -> Map<FluxBuf, int>
    decreases steps.len(),
{
    if steps.len() == 0 {
        l
    } else {
        lens_after(steps.last(), lens_behind(steps.drop_last(), l))
    }
}

/// Every step of a run reads only what the buffers hold.
pub open spec fn all_ok(m: BlockModel, steps: Seq<FluxStep>, l: Map<FluxBuf, int>) -> bool
    decreases steps.len(),
{
    steps.len() == 0 || all_ok(m, steps.drop_last(), l) && step_ok(
        m,
        steps.last(),
        lens_behind(steps.drop_last(), l),
    )
}

proof fn lemma_concat(m: BlockModel, a: Seq<FluxStep>, b: Seq<FluxStep>, l: Map<FluxBuf, int>)
    ensures
        lens_behind(a + b, l) == lens_behind(b, lens_behind(a, l)),
        all_ok(m, a + b, l) == (all_ok(m, a, l) && all_ok(m, b, lens_behind(a, l))),
    decreases b.len(),
{
    if b.len() == 0 {
        assert(a + b =~= a);
    } else {
        lemma_concat(m, a, b.drop_last(), l);
        assert((a + b).drop_last() =~= a + b.drop_last());
        assert((a + b).last() == b.last());
    }
}

proof fn lemma_one(m: BlockModel, a: Seq<FluxStep>, s: FluxStep, l: Map<FluxBuf, int>)
    requires
        all_ok(m, a, l),
        step_ok(m, s, lens_behind(a, l)),
    ensures
        all_ok(m, a.push(s), l),
        lens_behind(a.push(s), l) == lens_after(s, lens_behind(a, l)),
{
    assert(a.push(s).drop_last() =~= a);
}

/// The weight, where the model has it, takes rows of `cols` values to rows of `rows` values.
pub open spec fn fits(m: BlockModel, weight: FluxWeight, rows: int, cols: int) -> bool {
    q2_rows(m.w, weight, m.idx) matches Some(r) ==> r == rows && q2_cols(m.w, weight, m.idx) == cols
}

proof fn lemma_projected(
    m: BlockModel,
    a: Seq<FluxStep>,
    l: Map<FluxBuf, int>,
    weight: FluxWeight,
    from: FluxBuf,
    to: FluxBuf,
    batch: int,
    rows: int,
    cols: int,
)
    requires
        all_ok(m, a, l),
        fits(m, weight, rows, cols),
        holds(lens_behind(a, l), from, batch * cols),
        0 <= batch <= usize::MAX,
        0 <= rows <= usize::MAX,
        0 <= batch * rows <= usize::MAX,
    ensures
        ({
            let b = a + projected(m.w, m.idx, weight, from, to, batch, rows);
            all_ok(m, b, l) && lens_behind(b, l) == lens_behind(a, l).insert(to, batch * rows)
        }),
{
    let p = projected(m.w, m.idx, weight, from, to, batch, rows);
    assert(a + p =~= a.push(p[0]));
    lemma_one(m, a, p[0], l);
}

/// The weights that a double-stream block finds have the sizes that its streams ask for.
pub open spec fn double_fits(m: BlockModel) -> bool {
    &&& fits(m, FluxWeight::ToQ, m.n, m.d)
    &&& fits(m, FluxWeight::ToK, m.n, m.d)
    &&& fits(m, FluxWeight::ToV, m.n, m.d)
    &&& fits(m, FluxWeight::AddQ, m.n, m.d)
    &&& fits(m, FluxWeight::AddK, m.n, m.d)
    &&& fits(m, FluxWeight::AddV, m.n, m.d)
    &&& fits(m, FluxWeight::AddOut, m.d, m.n)
    &&& fits(m, FluxWeight::Out, m.d, m.n)
    &&& ff_fits(m, FluxWeight::ImageIn, FluxWeight::ImageOut)
    &&& ff_fits(m, FluxWeight::TextIn, FluxWeight::TextOut)
}

/// The weights of a feed-forward part fit together: half of the rows of the first are the columns
/// of the second.
pub open spec fn ff_fits(m: BlockModel, up: FluxWeight, down: FluxWeight) -> bool {
    q2_rows(m.w, up, m.idx) matches Some(r) ==> {
        &&& q2_cols(m.w, up, m.idx) == m.d
        &&& fits(m, down, m.d, r as int / 2)
    }
}

/// The numbers of rows and of values that a block works on can be counted.
pub open spec fn countable(m: BlockModel, img: int, txt: int) -> bool {
    &&& 0 <= img
    &&& 0 <= txt
    &&& img + txt <= usize::MAX
    &&& 0 <= m.d <= usize::MAX
    &&& 0 <= m.n <= usize::MAX
    &&& 0 <= img * m.n <= usize::MAX
    &&& 0 <= txt * m.n <= usize::MAX
    &&& 0 <= img * m.d <= usize::MAX
    &&& 0 <= txt * m.d <= usize::MAX
}

proof fn lemma_inputs(m: BlockModel, img: int, txt: int, l: Map<FluxBuf, int>) -> (after: Map<
    FluxBuf,
    int,
>)
    requires
        double_fits(m),
        countable(m, img, txt),
        holds(l, FluxBuf::Image, img * m.d),
        holds(l, FluxBuf::Text, txt * m.d),
    ensures
        all_ok(m, double_inputs(m.w, m.idx, m.n, img, txt), l),
        after == lens_behind(double_inputs(m.w, m.idx, m.n, img, txt), l),
        after.contains_key(FluxBuf::Image) && after[FluxBuf::Image] == l[FluxBuf::Image],
        after.contains_key(FluxBuf::Text) && after[FluxBuf::Text] == l[FluxBuf::Text],
        forall|b: FluxBuf|
            b is QImage || b is KImage || b is VImage || b is AddQ ==> #[trigger] after.contains_key(b)
                && after[b] == img * m.n,
        forall|b: FluxBuf|
            b is QText || b is KText || b is VText ==> #[trigger] after.contains_key(b) && after[b]
                == txt * m.n,
{
    let (w, i, n, d) = (m.w, m.idx, m.n, m.d);
    let (ni, nt) = (FluxBuf::ImageNormed, FluxBuf::TextNormed);
    let s0 = FluxStep::Modulate {
        stream: Stream::Image,
        from: FluxBuf::Image,
        to: ni,
        rows: img as usize,
        shift: 0,
        scale: 1,
    };
    let s1 = FluxStep::Modulate {
        stream: Stream::Text,
        from: FluxBuf::Text,
        to: nt,
        rows: txt as usize,
        shift: 0,
        scale: 1,
    };
    let e = Seq::<FluxStep>::empty();
    lemma_one(m, e, s0, l);
    lemma_one(m, e.push(s0), s1, l);
    let a0 = seq![s0, s1];
    assert(a0 =~= e.push(s0).push(s1));
    let a1 = a0 + projected(w, i, FluxWeight::ToQ, ni, FluxBuf::QImage, img, n);
    lemma_projected(m, a0, l, FluxWeight::ToQ, ni, FluxBuf::QImage, img, n, d);
    let a2 = a1 + projected(w, i, FluxWeight::ToQ, nt, FluxBuf::QText, txt, n);
    lemma_projected(m, a1, l, FluxWeight::ToQ, nt, FluxBuf::QText, txt, n, d);
    let a3 = a2 + projected(w, i, FluxWeight::ToK, ni, FluxBuf::KImage, img, n);
    lemma_projected(m, a2, l, FluxWeight::ToK, ni, FluxBuf::KImage, img, n, d);
    let a4 = a3 + projected(w, i, FluxWeight::ToK, nt, FluxBuf::KText, txt, n);
    lemma_projected(m, a3, l, FluxWeight::ToK, nt, FluxBuf::KText, txt, n, d);
    let a5 = a4 + projected(w, i, FluxWeight::ToV, ni, FluxBuf::VImage, img, n);
    lemma_projected(m, a4, l, FluxWeight::ToV, ni, FluxBuf::VImage, img, n, d);
    let a6 = a5 + projected(w, i, FluxWeight::ToV, nt, FluxBuf::VText, txt, n);
    lemma_projected(m, a5, l, FluxWeight::ToV, nt, FluxBuf::VText, txt, n, d);
    let a7 = a6 + projected(w, i, FluxWeight::AddQ, ni, FluxBuf::AddQ, img, n);
    lemma_projected(m, a6, l, FluxWeight::AddQ, ni, FluxBuf::AddQ, img, n, d);
    let a8 = a7 + projected(w, i, FluxWeight::AddK, nt, FluxBuf::AddK, txt, n);
    lemma_projected(m, a7, l, FluxWeight::AddK, nt, FluxBuf::AddK, txt, n, d);
    let a9 = a8 + projected(w, i, FluxWeight::AddV, nt, FluxBuf::AddV, txt, n);
    lemma_projected(m, a8, l, FluxWeight::AddV, nt, FluxBuf::AddV, txt, n, d);
    assert(double_inputs(w, i, n, img, txt) == a9);
    lens_behind(a9, l)
}

proof fn lemma_attention(m: BlockModel, img: int, txt: int, l: Map<FluxBuf, int>) -> (after: Map<
    FluxBuf,
    int,
>)
    requires
        countable(m, img, txt),
        forall|b: FluxBuf|
            b is QImage || b is KImage || b is VImage || b is AddQ ==> #[trigger] l.contains_key(b)
                && l[b] == img * m.n,
        forall|b: FluxBuf|
            b is QText || b is KText || b is VText ==> #[trigger] l.contains_key(b) && l[b] == txt
                * m.n,
    ensures
        all_ok(m, double_attention(img, txt), l),
        after == lens_behind(double_attention(img, txt), l),
        after.contains_key(FluxBuf::AttnImage) && after[FluxBuf::AttnImage] == img * m.n,
        after.contains_key(FluxBuf::AttnText) && after[FluxBuf::AttnText] == txt * m.n,
        forall|b: FluxBuf|
            b is Image || b is Text ==> after.contains_key(b) == l.contains_key(b) && #[trigger] after[b]
                == l[b],
{
    let s = double_attention(img, txt);
    let e = Seq::<FluxStep>::empty();
    assert(l.contains_key(FluxBuf::QImage) && l.contains_key(FluxBuf::KImage) && l.contains_key(
        FluxBuf::VImage,
    ) && l.contains_key(FluxBuf::AddQ) && l.contains_key(FluxBuf::QText) && l.contains_key(
        FluxBuf::KText,
    ) && l.contains_key(FluxBuf::VText));
    assert((img + txt) * m.n == img * m.n + txt * m.n) by (nonlinear_arith);
    let p1 = e.push(s[0]);
    lemma_one(m, e, s[0], l);
    let p2 = p1.push(s[1]);
    lemma_one(m, p1, s[1], l);
    let p3 = p2.push(s[2]);
    lemma_one(m, p2, s[2], l);
    let p4 = p3.push(s[3]);
    lemma_one(m, p3, s[3], l);
    let p5 = p4.push(s[4]);
    lemma_one(m, p4, s[4], l);
    let p6 = p5.push(s[5]);
    lemma_one(m, p5, s[5], l);
    let p7 = p6.push(s[6]);
    lemma_one(m, p6, s[6], l);
    let p8 = p7.push(s[7]);
    lemma_one(m, p7, s[7], l);
    assert(p8 =~= s);
    lens_behind(s, l)
}

proof fn lemma_outputs(m: BlockModel, img: int, txt: int, l: Map<FluxBuf, int>) -> (after: Map<
    FluxBuf,
    int,
>)
    requires
        double_fits(m),
        countable(m, img, txt),
        holds(l, FluxBuf::AttnImage, img * m.n),
        holds(l, FluxBuf::AttnText, txt * m.n),
        holds(l, FluxBuf::Image, img * m.d),
        holds(l, FluxBuf::Text, txt * m.d),
    ensures
        all_ok(m, double_outputs(m.w, m.idx, m.d, img, txt), l),
        after == lens_behind(double_outputs(m.w, m.idx, m.d, img, txt), l),
        after.contains_key(FluxBuf::Image) && after[FluxBuf::Image] == l[FluxBuf::Image],
        after.contains_key(FluxBuf::Text) && after[FluxBuf::Text] == l[FluxBuf::Text],
{
    let (w, i, n, d) = (m.w, m.idx, m.n, m.d);
    let (ai, at) = (FluxBuf::AttnImage, FluxBuf::AttnText);
    let all = double_outputs(w, i, d, img, txt);
    let a0 = Seq::<FluxStep>::empty();
    let a1 = a0 + projected(w, i, FluxWeight::AddOut, ai, FluxBuf::AddOutImage, img, d);
    lemma_projected(m, a0, l, FluxWeight::AddOut, ai, FluxBuf::AddOutImage, img, d, n);
    let a2 = a1 + projected(w, i, FluxWeight::AddOut, at, FluxBuf::AddOutText, txt, d);
    lemma_projected(m, a1, l, FluxWeight::AddOut, at, FluxBuf::AddOutText, txt, d, n);
    let a3 = a2 + projected(w, i, FluxWeight::Out, ai, FluxBuf::OutImage, img, d);
    lemma_projected(m, a2, l, FluxWeight::Out, ai, FluxBuf::OutImage, img, d, n);
    let a4 = a3 + projected(w, i, FluxWeight::Out, at, FluxBuf::OutText, txt, d);
    lemma_projected(m, a3, l, FluxWeight::Out, at, FluxBuf::OutText, txt, d, n);
    let k = a4.len() as int;
    assert(all.take(k) =~= a4);
    lemma_one(m, a4, all[k], l);
    lemma_one(m, a4.push(all[k]), all[k + 1], l);
    assert(all =~= a4.push(all[k]).push(all[k + 1]));
    lens_behind(all, l)
}

proof fn lemma_feed_forward(
    m: BlockModel,
    stream: Stream,
    up: FluxWeight,
    down: FluxWeight,
    to: FluxBuf,
    normed: FluxBuf,
    rows: int,
    l: Map<FluxBuf, int>,
) -> (after: Map<FluxBuf, int>)
    requires
        ff_fits(m, up, down),
        !(stream is Single),
        to is Image || to is Text,
        normed is ImageNormed || normed is TextNormed,
        0 <= rows <= usize::MAX,
        0 <= m.d <= usize::MAX,
        holds(l, to, rows * m.d),
    ensures
        all_ok(m, feed_forward(m.w, m.idx, m.d, stream, up, down, to, normed, rows), l),
        after == lens_behind(
            feed_forward(m.w, m.idx, m.d, stream, up, down, to, normed, rows),
            l,
        ),
        forall|b: FluxBuf|
            b is Image || b is Text ==> after.contains_key(b) == l.contains_key(b) && #[trigger] after[b]
                == l[b],
{
    let s = feed_forward(m.w, m.idx, m.d, stream, up, down, to, normed, rows);
    let e = Seq::<FluxStep>::empty();
    let p1 = e.push(s[0]);
    lemma_one(m, e, s[0], l);
    if let Some(width) = q2_rows(m.w, up, m.idx) {
        let half = width as int / 2;
        let p2 = p1.push(s[1]);
        lemma_one(m, p1, s[1], l);
        assert(rows * (2 * half) <= rows * width) by (nonlinear_arith)
            requires
                0 <= rows,
                2 * half <= width,
        {
        }
        let p3 = p2.push(s[2]);
        lemma_one(m, p2, s[2], l);
        let p4 = p3.push(s[3]);
        lemma_one(m, p3, s[3], l);
        let p5 = p4.push(s[4]);
        lemma_one(m, p4, s[4], l);
        if q2_rows(m.w, down, m.idx) is Some {
            let p6 = p5.push(s[5]);
            lemma_one(m, p5, s[5], l);
            let p7 = p6.push(s[6]);
            lemma_one(m, p6, s[6], l);
            assert(p7 =~= s);
        } else {
            assert(p5 =~= s);
        }
    } else {
        assert(p1 =~= s);
    }
    lens_behind(s, l)
}

/// A double-stream block never reaches outside its buffers, and leaves image and text as long as
/// they were.
pub proof fn law_double_block_stays_inside(
    m: BlockModel,
    img: int,
    txt: int,
    l: Map<FluxBuf, int>,
)
    requires
        double_fits(m),
        countable(m, img, txt),
        holds(l, FluxBuf::Image, img * m.d),
        holds(l, FluxBuf::Text, txt * m.d),
    ensures
        all_ok(m, double_block(m.w, m.idx, m.d, m.n, img, txt), l),
        lens_behind(double_block(m.w, m.idx, m.d, m.n, img, txt), l)[FluxBuf::Image]
            == l[FluxBuf::Image],
        lens_behind(double_block(m.w, m.idx, m.d, m.n, img, txt), l)[FluxBuf::Text]
            == l[FluxBuf::Text],
{
    let a = double_inputs(m.w, m.idx, m.n, img, txt);
    let b = double_attention(img, txt);
    let c = double_outputs(m.w, m.idx, m.d, img, txt);
    let f = feed_forward(
        m.w,
        m.idx,
        m.d,
        Stream::Image,
        FluxWeight::ImageIn,
        FluxWeight::ImageOut,
        FluxBuf::Image,
        FluxBuf::ImageNormed,
        img,
    );
    let g = feed_forward(
        m.w,
        m.idx,
        m.d,
        Stream::Text,
        FluxWeight::TextIn,
        FluxWeight::TextOut,
        FluxBuf::Text,
        FluxBuf::TextNormed,
        txt,
    );
    let l1 = lemma_inputs(m, img, txt, l);
    let l2 = lemma_attention(m, img, txt, l1);
    assert(l2[FluxBuf::Image] == l1[FluxBuf::Image] && l2[FluxBuf::Text] == l1[FluxBuf::Text]);
    let l3 = lemma_outputs(m, img, txt, l2);
    let l4 = lemma_feed_forward(
        m,
        Stream::Image,
        FluxWeight::ImageIn,
        FluxWeight::ImageOut,
        FluxBuf::Image,
        FluxBuf::ImageNormed,
        img,
        l3,
    );
    assert(l4[FluxBuf::Image] == l3[FluxBuf::Image] && l4[FluxBuf::Text] == l3[FluxBuf::Text]);
    let l5 = lemma_feed_forward(
        m,
        Stream::Text,
        FluxWeight::TextIn,
        FluxWeight::TextOut,
        FluxBuf::Text,
        FluxBuf::TextNormed,
        txt,
        l4,
    );
    assert(l5[FluxBuf::Image] == l4[FluxBuf::Image] && l5[FluxBuf::Text] == l4[FluxBuf::Text]);
    lemma_concat(m, a, b, l);
    lemma_concat(m, a + b, c, l);
    lemma_concat(m, a + b + c, f, l);
    lemma_concat(m, a + b + c + f, g, l);
}

/// A single-stream block never reaches outside its buffers, and leaves the hidden state as long as
/// it was.
pub proof fn law_single_block_stays_inside(
    m: BlockModel,
    f: int,
    rows: usize,
    seq_img: int,
    seq: int,
    l: Map<FluxBuf, int>,
)
    requires
        q2_rows(m.w, FluxWeight::QkvMlp, m.idx) == Some(rows),
        q2_cols(m.w, FluxWeight::QkvMlp, m.idx) == m.d,
        fits(m, FluxWeight::SingleOut, m.d, m.n + f),
        0 <= f,
        0 <= m.n,
        3 * m.n + 2 * f <= rows,
        0 <= m.d <= usize::MAX,
        0 <= seq_img <= seq <= usize::MAX,
        0 <= seq * m.d <= usize::MAX,
        holds(l, FluxBuf::Hidden, seq * m.d),
    ensures
        all_ok(m, single_block(m.w, m.idx, m.d, m.n, f, rows, seq_img, seq), l),
        lens_behind(single_block(m.w, m.idx, m.d, m.n, f, rows, seq_img, seq), l)[FluxBuf::Hidden]
            == l[FluxBuf::Hidden],
{
    let s = single_block(m.w, m.idx, m.d, m.n, f, rows, seq_img, seq);
    let e = Seq::<FluxStep>::empty();
    assert(0 <= seq_img * m.n <= seq * m.n) by (nonlinear_arith)
        requires
            0 <= seq_img <= seq,
            0 <= m.n,
    {
    }
    assert(seq * (m.n + f) == seq * m.n + seq * f) by (nonlinear_arith);
    let p1 = e.push(s[0]);
    lemma_one(m, e, s[0], l);
    let p2 = p1.push(s[1]);
    lemma_one(m, p1, s[1], l);
    let p3 = p2.push(s[2]);
    lemma_one(m, p2, s[2], l);
    let p4 = p3.push(s[3]);
    lemma_one(m, p3, s[3], l);
    let p5 = p4.push(s[4]);
    lemma_one(m, p4, s[4], l);
    let p6 = p5.push(s[5]);
    lemma_one(m, p5, s[5], l);
    let p7 = p6.push(s[6]);
    lemma_one(m, p6, s[6], l);
    let p8 = p7.push(s[7]);
    lemma_one(m, p7, s[7], l);
    let p9 = p8.push(s[8]);
    lemma_one(m, p8, s[8], l);
    let p10 = p9.push(s[9]);
    lemma_one(m, p9, s[9], l);
    let p11 = p10.push(s[10]);
    lemma_one(m, p10, s[10], l);
    lemma_projected(
        m,
        p11,
        l,
        FluxWeight::SingleOut,
        FluxBuf::Wide,
        FluxBuf::Narrow,
        seq,
        m.d,
        m.n + f,
    );
    let p12 = p11 + projected(
        m.w,
        m.idx,
        FluxWeight::SingleOut,
        FluxBuf::Wide,
        FluxBuf::Narrow,
        seq,
        m.d,
    );
    lemma_one(m, p12, s[12], l);
    assert(p12.push(s[12]) =~= s);
}

} // verus!
