//! What a block computes.
use vstd::prelude::*;

use crate::diffusion::block_meaning::{
    does, double_name, double_out, fed_forward, lemma_run_chain, lemma_run_push, run, single_out,
    through, BlockArithmetic,
};
use crate::diffusion::flux::{
    double_attention, double_block, double_inputs, double_outputs, feed_forward, has_q2, projected,
    q2_rows, single_block, FluxBuf, FluxStep, FluxWeight, Stream,
};
use crate::diffusion::weights::StoredModel;

verus! {

proof fn lemma_one<V>(st: Map<FluxBuf, V>, x: FluxStep, a: BlockArithmetic<V>, idx: int)
    ensures
        run(st, seq![x], a, idx) == does(st, x, a, idx),
{
    lemma_run_push(st, Seq::empty(), x, a, idx);
}

proof fn lemma_through<V>(
    st: Map<FluxBuf, V>,
    a: BlockArithmetic<V>,
    w: Map<Seq<char>, StoredModel>,
    idx: int,
    weight: FluxWeight,
    from: FluxBuf,
    to: FluxBuf,
    batch: int,
    width: int,
)
    requires
        0 <= batch <= usize::MAX,
        0 <= width <= usize::MAX,
        0 <= batch * width <= usize::MAX,
    ensures
        run(st, projected(w, idx, weight, from, to, batch, width), a, idx) == st.insert(
            to,
            through(a, w, weight.full_name(idx), st[from], batch, width),
        ),
{
    let steps = projected(w, idx, weight, from, to, batch, width);
    assert(steps =~= seq![steps[0]]);
    lemma_one(st, steps[0], a, idx);
}

/// The steps behind a first one.
proof fn lemma_first<V>(
    st: Map<FluxBuf, V>,
    steps: Seq<FluxStep>,
    a: BlockArithmetic<V>,
    idx: int,
)
    requires
        steps.len() > 0,
    ensures
        run(st, steps, a, idx) == run(does(st, steps[0], a, idx), steps.skip(1), a, idx),
{
    lemma_one(st, steps[0], a, idx);
    lemma_run_chain(st, seq![steps[0]], steps.skip(1), a, idx);
    assert(seq![steps[0]] + steps.skip(1) =~= steps);
}

#[verifier::spinoff_prover]
#[verifier::rlimit(50)]
proof fn lemma_inputs<V>(
    st: Map<FluxBuf, V>,
    a: BlockArithmetic<V>,
    w: Map<Seq<char>, StoredModel>,
    idx: int,
    width: int,
    img: int,
    txt: int,
)
    requires
        0 <= img <= usize::MAX,
        0 <= txt <= usize::MAX,
        0 <= width <= usize::MAX,
        0 <= img * width <= usize::MAX,
        0 <= txt * width <= usize::MAX,
    ensures
        ({
            let r = run(st, double_inputs(w, idx, width, img, txt), a, idx);
            let ni = (a.modulate)(Stream::Image, st[FluxBuf::Image], img, 0, 1);
            let nt = (a.modulate)(Stream::Text, st[FluxBuf::Text], txt, 0, 1);
            let (q, k, v) = (
                FluxWeight::ToQ.full_name(idx),
                FluxWeight::ToK.full_name(idx),
                FluxWeight::ToV.full_name(idx),
            );
            &&& r[FluxBuf::Image] == st[FluxBuf::Image]
            &&& r[FluxBuf::Text] == st[FluxBuf::Text]
            &&& r[FluxBuf::QImage] == through(a, w, q, ni, img, width)
            &&& r[FluxBuf::QText] == through(a, w, q, nt, txt, width)
            &&& r[FluxBuf::KImage] == through(a, w, k, ni, img, width)
            &&& r[FluxBuf::KText] == through(a, w, k, nt, txt, width)
            &&& r[FluxBuf::VImage] == through(a, w, v, ni, img, width)
            &&& r[FluxBuf::VText] == through(a, w, v, nt, txt, width)
            &&& r[FluxBuf::AddQ] == through(a, w, FluxWeight::AddQ.full_name(idx), ni, img, width)
        }),
{
    let (bi, bt) = (FluxBuf::ImageNormed, FluxBuf::TextNormed);
    let first = seq![
        FluxStep::Modulate {
            stream: Stream::Image,
            from: FluxBuf::Image,
            to: bi,
            rows: img as usize,
            shift: 0,
            scale: 1,
        },
        FluxStep::Modulate {
            stream: Stream::Text,
            from: FluxBuf::Text,
            to: bt,
            rows: txt as usize,
            shift: 0,
            scale: 1,
        },
    ];
    let p1 = projected(w, idx, FluxWeight::ToQ, bi, FluxBuf::QImage, img, width);
    let p2 = projected(w, idx, FluxWeight::ToQ, bt, FluxBuf::QText, txt, width);
    let p3 = projected(w, idx, FluxWeight::ToK, bi, FluxBuf::KImage, img, width);
    let p4 = projected(w, idx, FluxWeight::ToK, bt, FluxBuf::KText, txt, width);
    let p5 = projected(w, idx, FluxWeight::ToV, bi, FluxBuf::VImage, img, width);
    let p6 = projected(w, idx, FluxWeight::ToV, bt, FluxBuf::VText, txt, width);
    let p7 = projected(w, idx, FluxWeight::AddQ, bi, FluxBuf::AddQ, img, width);
    let p8 = projected(w, idx, FluxWeight::AddK, bt, FluxBuf::AddK, txt, width);
    let p9 = projected(w, idx, FluxWeight::AddV, bt, FluxBuf::AddV, txt, width);
    let c1 = first + p1;
    let c2 = c1 + p2;
    let c3 = c2 + p3;
    let c4 = c3 + p4;
    let c5 = c4 + p5;
    let c6 = c5 + p6;
    let c7 = c6 + p7;
    let c8 = c7 + p8;
    lemma_run_chain(st, c8, p9, a, idx);
    lemma_run_chain(st, c7, p8, a, idx);
    lemma_run_chain(st, c6, p7, a, idx);
    lemma_run_chain(st, c5, p6, a, idx);
    lemma_run_chain(st, c4, p5, a, idx);
    lemma_run_chain(st, c3, p4, a, idx);
    lemma_run_chain(st, c2, p3, a, idx);
    lemma_run_chain(st, c1, p2, a, idx);
    lemma_run_chain(st, first, p1, a, idx);
    lemma_first(st, first, a, idx);
    let s1 = does(st, first[0], a, idx);
    assert(first.skip(1) =~= seq![first[1]]);
    lemma_one(s1, first[1], a, idx);
    let s2 = run(st, first, a, idx);
    lemma_through(s2, a, w, idx, FluxWeight::ToQ, bi, FluxBuf::QImage, img, width);
    let s3 = run(s2, p1, a, idx);
    lemma_through(s3, a, w, idx, FluxWeight::ToQ, bt, FluxBuf::QText, txt, width);
    let s4 = run(s3, p2, a, idx);
    lemma_through(s4, a, w, idx, FluxWeight::ToK, bi, FluxBuf::KImage, img, width);
    let s5 = run(s4, p3, a, idx);
    lemma_through(s5, a, w, idx, FluxWeight::ToK, bt, FluxBuf::KText, txt, width);
    let s6 = run(s5, p4, a, idx);
    lemma_through(s6, a, w, idx, FluxWeight::ToV, bi, FluxBuf::VImage, img, width);
    let s7 = run(s6, p5, a, idx);
    lemma_through(s7, a, w, idx, FluxWeight::ToV, bt, FluxBuf::VText, txt, width);
    let s8 = run(s7, p6, a, idx);
    lemma_through(s8, a, w, idx, FluxWeight::AddQ, bi, FluxBuf::AddQ, img, width);
    let s9 = run(s8, p7, a, idx);
    lemma_through(s9, a, w, idx, FluxWeight::AddK, bt, FluxBuf::AddK, txt, width);
    let s10 = run(s9, p8, a, idx);
    lemma_through(s10, a, w, idx, FluxWeight::AddV, bt, FluxBuf::AddV, txt, width);
}

#[verifier::spinoff_prover]
#[verifier::rlimit(50)]
proof fn lemma_attention<V>(
    st: Map<FluxBuf, V>,
    a: BlockArithmetic<V>,
    idx: int,
    img: int,
    txt: int,
)
    requires
        0 <= img,
        0 <= txt,
        img + txt <= usize::MAX,
    ensures
        ({
            let r = run(st, double_attention(img, txt), a, idx);
            let q = (a.rotate)((a.plus)(st[FluxBuf::QImage], st[FluxBuf::AddQ]), img);
            let k = (a.rotate)(st[FluxBuf::KImage], img);
            let (kt, vi, vt) = (st[FluxBuf::KText], st[FluxBuf::VImage], st[FluxBuf::VText]);
            &&& r[FluxBuf::Image] == st[FluxBuf::Image]
            &&& r[FluxBuf::Text] == st[FluxBuf::Text]
            &&& r[FluxBuf::AttnImage] == (a.attend)(
                q,
                (a.join)(kt, k),
                (a.join)(vt, vi),
                img + txt,
            )
            &&& r[FluxBuf::AttnText] == (a.attend)(
                st[FluxBuf::QText],
                (a.join)(k, kt),
                (a.join)(vi, vt),
                img + txt,
            )
        }),
{
    let t = double_attention(img, txt);
    lemma_first(st, t, a, idx);
    let s1 = does(st, t[0], a, idx);
    let t1 = t.skip(1);
    lemma_first(s1, t1, a, idx);
    let s2 = does(s1, t[1], a, idx);
    let t2 = t1.skip(1);
    lemma_first(s2, t2, a, idx);
    let s3 = does(s2, t[2], a, idx);
    let t3 = t2.skip(1);
    lemma_first(s3, t3, a, idx);
    let s4 = does(s3, t[3], a, idx);
    let t4 = t3.skip(1);
    lemma_first(s4, t4, a, idx);
    let s5 = does(s4, t[4], a, idx);
    let t5 = t4.skip(1);
    lemma_first(s5, t5, a, idx);
    let s6 = does(s5, t[5], a, idx);
    let t6 = t5.skip(1);
    lemma_first(s6, t6, a, idx);
    let s7 = does(s6, t[6], a, idx);
    let t7 = t6.skip(1);
    lemma_first(s7, t7, a, idx);
    let s8 = does(s7, t[7], a, idx);
    assert(t7.skip(1).len() == 0);
    assert(run(st, t, a, idx) == s8);
}

#[verifier::spinoff_prover]
#[verifier::rlimit(50)]
proof fn lemma_outputs<V>(
    st: Map<FluxBuf, V>,
    a: BlockArithmetic<V>,
    w: Map<Seq<char>, StoredModel>,
    idx: int,
    d: int,
    img: int,
    txt: int,
)
    requires
        0 <= img <= usize::MAX,
        0 <= txt <= usize::MAX,
        0 <= d <= usize::MAX,
        0 <= img * d <= usize::MAX,
        0 <= txt * d <= usize::MAX,
    ensures
        ({
            let r = run(st, double_outputs(w, idx, d, img, txt), a, idx);
            let (add, out) = (FluxWeight::AddOut.full_name(idx), FluxWeight::Out.full_name(idx));
            let (si, tt) = (st[FluxBuf::AttnImage], st[FluxBuf::AttnText]);
            &&& r[FluxBuf::Image] == (a.residual)(
                Stream::Image,
                2,
                st[FluxBuf::Image],
                through(a, w, out, si, img, d),
                Some(through(a, w, add, si, img, d)),
                img,
            )
            &&& r[FluxBuf::Text] == (a.residual)(
                Stream::Text,
                2,
                st[FluxBuf::Text],
                through(a, w, out, tt, txt, d),
                Some(through(a, w, add, tt, txt, d)),
                txt,
            )
        }),
{
    let (bi, bt) = (FluxBuf::AttnImage, FluxBuf::AttnText);
    let p1 = projected(w, idx, FluxWeight::AddOut, bi, FluxBuf::AddOutImage, img, d);
    let p2 = projected(w, idx, FluxWeight::AddOut, bt, FluxBuf::AddOutText, txt, d);
    let p3 = projected(w, idx, FluxWeight::Out, bi, FluxBuf::OutImage, img, d);
    let p4 = projected(w, idx, FluxWeight::Out, bt, FluxBuf::OutText, txt, d);
    let last = seq![
        FluxStep::Residual {
            stream: Stream::Image,
            part: 2,
            from: FluxBuf::OutImage,
            more: Some(FluxBuf::AddOutImage),
            to: FluxBuf::Image,
            rows: img as usize,
        },
        FluxStep::Residual {
            stream: Stream::Text,
            part: 2,
            from: FluxBuf::OutText,
            more: Some(FluxBuf::AddOutText),
            to: FluxBuf::Text,
            rows: txt as usize,
        },
    ];
    let c2 = p1 + p2;
    let c3 = c2 + p3;
    let c4 = c3 + p4;
    lemma_run_chain(st, c4, last, a, idx);
    lemma_run_chain(st, c3, p4, a, idx);
    lemma_run_chain(st, c2, p3, a, idx);
    lemma_run_chain(st, p1, p2, a, idx);
    lemma_through(st, a, w, idx, FluxWeight::AddOut, bi, FluxBuf::AddOutImage, img, d);
    let s1 = run(st, p1, a, idx);
    lemma_through(s1, a, w, idx, FluxWeight::AddOut, bt, FluxBuf::AddOutText, txt, d);
    let s2 = run(s1, p2, a, idx);
    lemma_through(s2, a, w, idx, FluxWeight::Out, bi, FluxBuf::OutImage, img, d);
    let s3 = run(s2, p3, a, idx);
    lemma_through(s3, a, w, idx, FluxWeight::Out, bt, FluxBuf::OutText, txt, d);
    let s4 = run(s3, p4, a, idx);
    lemma_first(s4, last, a, idx);
    assert(last.skip(1) =~= seq![last[1]]);
    lemma_one(does(s4, last[0], a, idx), last[1], a, idx);
}

#[verifier::spinoff_prover]
#[verifier::rlimit(50)]
proof fn lemma_fed<V>(
    st: Map<FluxBuf, V>,
    a: BlockArithmetic<V>,
    w: Map<Seq<char>, StoredModel>,
    idx: int,
    d: int,
    stream: Stream,
    up: FluxWeight,
    down: FluxWeight,
    to: FluxBuf,
    normed: FluxBuf,
    rows: int,
)
    requires
        0 <= rows <= usize::MAX,
        0 <= d <= usize::MAX,
        to == FluxBuf::Image && normed == FluxBuf::ImageNormed || to == FluxBuf::Text && normed
            == FluxBuf::TextNormed,
    ensures
        ({
            let r = run(st, feed_forward(w, idx, d, stream, up, down, to, normed, rows), a, idx);
            let (u, o) = (up.full_name(idx), down.full_name(idx));
            &&& r[to] == fed_forward(a, w, stream, u, o, st[to], rows, d)
            &&& to == FluxBuf::Image ==> r[FluxBuf::Text] == st[FluxBuf::Text]
            &&& to == FluxBuf::Text ==> r[FluxBuf::Image] == st[FluxBuf::Image]
        }),
{
    let t = feed_forward(w, idx, d, stream, up, down, to, normed, rows);
    lemma_first(st, t, a, idx);
    let s1 = does(st, t[0], a, idx);
    let t1 = t.skip(1);
    if q2_rows(w, up, idx) is None {
        assert(t1.len() == 0);
    } else {
        lemma_first(s1, t1, a, idx);
        let s2 = does(s1, t[1], a, idx);
        let t2 = t1.skip(1);
        lemma_first(s2, t2, a, idx);
        let s3 = does(s2, t[2], a, idx);
        let t3 = t2.skip(1);
        lemma_first(s3, t3, a, idx);
        let s4 = does(s3, t[3], a, idx);
        let t4 = t3.skip(1);
        lemma_first(s4, t4, a, idx);
        let s5 = does(s4, t[4], a, idx);
        let t5 = t4.skip(1);
        if q2_rows(w, down, idx) is None {
            assert(t5.len() == 0);
        } else {
            lemma_first(s5, t5, a, idx);
            let s6 = does(s5, t[5], a, idx);
            let t6 = t5.skip(1);
            lemma_first(s6, t6, a, idx);
            assert(t6.skip(1).len() == 0);
            assert(run(st, t, a, idx) == does(s6, t[6], a, idx));
        }
    }
}

/// A double-stream block computes what such a block is.
#[verifier::spinoff_prover]
#[verifier::rlimit(60)]
pub proof fn law_double_block_is_computed<V>(
    st: Map<FluxBuf, V>,
    a: BlockArithmetic<V>,
    w: Map<Seq<char>, StoredModel>,
    idx: int,
    d: int,
    width: int,
    img: int,
    txt: int,
)
    requires
        0 <= img,
        0 <= txt,
        img + txt <= usize::MAX,
        0 <= width <= usize::MAX,
        0 <= d <= usize::MAX,
        0 <= img * width <= usize::MAX,
        0 <= txt * width <= usize::MAX,
        0 <= img * d <= usize::MAX,
        0 <= txt * d <= usize::MAX,
    ensures
        ({
            let r = run(st, double_block(w, idx, d, width, img, txt), a, idx);
            let out = double_out(
                a,
                w,
                idx,
                d,
                width,
                img,
                txt,
                st[FluxBuf::Image],
                st[FluxBuf::Text],
            );
            r[FluxBuf::Image] == out.image && r[FluxBuf::Text] == out.text
        }),
{
    let p1 = double_inputs(w, idx, width, img, txt);
    let p2 = double_attention(img, txt);
    let p3 = double_outputs(w, idx, d, img, txt);
    let p4 = feed_forward(
        w,
        idx,
        d,
        Stream::Image,
        FluxWeight::ImageIn,
        FluxWeight::ImageOut,
        FluxBuf::Image,
        FluxBuf::ImageNormed,
        img,
    );
    let p5 = feed_forward(
        w,
        idx,
        d,
        Stream::Text,
        FluxWeight::TextIn,
        FluxWeight::TextOut,
        FluxBuf::Text,
        FluxBuf::TextNormed,
        txt,
    );
    let c2 = p1 + p2;
    let c3 = c2 + p3;
    let c4 = c3 + p4;
    lemma_run_chain(st, c4, p5, a, idx);
    lemma_run_chain(st, c3, p4, a, idx);
    lemma_run_chain(st, c2, p3, a, idx);
    lemma_run_chain(st, p1, p2, a, idx);
    lemma_inputs(st, a, w, idx, width, img, txt);
    let s1 = run(st, p1, a, idx);
    lemma_attention(s1, a, idx, img, txt);
    let s2 = run(s1, p2, a, idx);
    lemma_outputs(s2, a, w, idx, d, img, txt);
    let s3 = run(s2, p3, a, idx);
    lemma_fed(
        s3,
        a,
        w,
        idx,
        d,
        Stream::Image,
        FluxWeight::ImageIn,
        FluxWeight::ImageOut,
        FluxBuf::Image,
        FluxBuf::ImageNormed,
        img,
    );
    let s4 = run(s3, p4, a, idx);
    lemma_fed(
        s4,
        a,
        w,
        idx,
        d,
        Stream::Text,
        FluxWeight::TextIn,
        FluxWeight::TextOut,
        FluxBuf::Text,
        FluxBuf::TextNormed,
        txt,
    );
}

/// A single-stream block computes what such a block is.
#[verifier::spinoff_prover]
#[verifier::rlimit(60)]
pub proof fn law_single_block_is_computed<V>(
    st: Map<FluxBuf, V>,
    a: BlockArithmetic<V>,
    w: Map<Seq<char>, StoredModel>,
    idx: int,
    d: int,
    n: int,
    f: int,
    width: usize,
    img: int,
    rows: int,
)
    requires
        0 <= img <= rows <= usize::MAX,
        0 <= d <= usize::MAX,
        0 <= rows * d <= usize::MAX,
        0 <= n,
        0 <= f,
        3 * n + 2 * f <= usize::MAX,
        q2_rows(w, FluxWeight::QkvMlp, idx) == Some(width),
    ensures
        run(st, single_block(w, idx, d, n, f, width, img, rows), a, idx)[FluxBuf::Hidden]
            == single_out(a, w, idx, d, n, f, img, rows, st[FluxBuf::Hidden]),
{
    let t = single_block(w, idx, d, n, f, width, img, rows);
    lemma_first(st, t, a, idx);
    let s1 = does(st, t[0], a, idx);
    let t1 = t.skip(1);
    lemma_first(s1, t1, a, idx);
    let s2 = does(s1, t[1], a, idx);
    let t2 = t1.skip(1);
    lemma_first(s2, t2, a, idx);
    let s3 = does(s2, t[2], a, idx);
    let t3 = t2.skip(1);
    lemma_first(s3, t3, a, idx);
    let s4 = does(s3, t[3], a, idx);
    let t4 = t3.skip(1);
    lemma_first(s4, t4, a, idx);
    let s5 = does(s4, t[4], a, idx);
    let t5 = t4.skip(1);
    lemma_first(s5, t5, a, idx);
    let s6 = does(s5, t[5], a, idx);
    let t6 = t5.skip(1);
    lemma_first(s6, t6, a, idx);
    let s7 = does(s6, t[6], a, idx);
    let t7 = t6.skip(1);
    lemma_first(s7, t7, a, idx);
    let s8 = does(s7, t[7], a, idx);
    let t8 = t7.skip(1);
    lemma_first(s8, t8, a, idx);
    let s9 = does(s8, t[8], a, idx);
    let t9 = t8.skip(1);
    lemma_first(s9, t9, a, idx);
    let s10 = does(s9, t[9], a, idx);
    let t10 = t9.skip(1);
    lemma_first(s10, t10, a, idx);
    let s11 = does(s10, t[10], a, idx);
    let t11 = t10.skip(1);
    let p = projected(w, idx, FluxWeight::SingleOut, FluxBuf::Wide, FluxBuf::Narrow, rows, d);
    let last = FluxStep::Residual {
        stream: Stream::Single,
        part: 2,
        from: FluxBuf::Narrow,
        more: None,
        to: FluxBuf::Hidden,
        rows: rows as usize,
    };
    assert(t11 =~= p + seq![last]);
    lemma_run_chain(s11, p, seq![last], a, idx);
    lemma_through(s11, a, w, idx, FluxWeight::SingleOut, FluxBuf::Wide, FluxBuf::Narrow, rows, d);
    let s12 = run(s11, p, a, idx);
    lemma_one(s12, last, a, idx);
}

/// Which token each row of a value comes from, and whether all that was looked at on the way to it was
/// looked at properly.
pub struct Origin {
    pub rows: Seq<(Stream, int)>,
    pub sound: bool,
}

/// The rows of a stream, in order.
pub open spec fn stream_rows(stream: Stream, n: int) -> Seq<(Stream, int)> {
    Seq::new(n as nat, |i: int| (stream, i))
}

/// Attention is proper where row `j` of the keys and row `j` of the values come from the same token, for
/// every `j`, and where every token of both streams occurs once.
pub open spec fn properly_seen(k: Origin, v: Origin, img: int, txt: int, keys: int) -> bool {
    &&& k.rows == v.rows
    &&& k.rows.len() == keys == img + txt
    &&& k.rows.no_duplicates()
    &&& forall|i: int| 0 <= i < img ==> k.rows.contains((Stream::Image, i))
    &&& forall|i: int| 0 <= i < txt ==> k.rows.contains((Stream::Text, i))
}

/// Arithmetic that follows tokens: what works row by row keeps their order.
pub open spec fn following(img: int, txt: int) -> BlockArithmetic<Origin> {
    BlockArithmetic {
        zeros: |n: int| Origin { rows: Seq::empty(), sound: true },
        modulate: |s: Stream, x: Origin, n: int, p: int, q: int| x,
        project: |name: Seq<char>, x: Origin, n: int, m: int| x,
        plus: |x: Origin, y: Origin| Origin { rows: x.rows, sound: x.sound && y.sound },
        rotate: |x: Origin, n: int| x,
        join: |x: Origin, y: Origin| Origin { rows: x.rows + y.rows, sound: x.sound && y.sound },
        attend: |q: Origin, k: Origin, v: Origin, keys: int|
            Origin {
                rows: q.rows,
                sound: q.sound && k.sound && v.sound && properly_seen(k, v, img, txt, keys),
            },
        columns: |x: Origin, n: int, m: int, p: int, q: int| x,
        activate: |x: Origin, y: Origin| Origin { rows: x.rows, sound: x.sound && y.sound },
        residual: |s: Stream, p: int, x: Origin, y: Origin, z: Option<Origin>, n: int|
            Origin {
                rows: x.rows,
                sound: x.sound && y.sound && (z matches Some(o) ==> o.sound),
            },
    }
}

/// In a double-stream block keys and values go together: at every attention row `j` of the keys and row
/// `j` of the values come from the same token, and every token of both streams is looked at once.
pub proof fn law_keys_and_values_go_together(
    st: Map<FluxBuf, Origin>,
    w: Map<Seq<char>, StoredModel>,
    idx: int,
    d: int,
    width: int,
    img: int,
    txt: int,
)
    requires
        0 <= img,
        0 <= txt,
        img + txt <= usize::MAX,
        0 <= width <= usize::MAX,
        0 <= d <= usize::MAX,
        0 <= img * width <= usize::MAX,
        0 <= txt * width <= usize::MAX,
        0 <= img * d <= usize::MAX,
        0 <= txt * d <= usize::MAX,
        has_q2(w, double_name(idx, ".attn.to_k"@)),
        has_q2(w, double_name(idx, ".attn.to_v"@)),
        has_q2(w, double_name(idx, ".attn.to_out.0"@)),
        st[FluxBuf::Image] == (Origin { rows: stream_rows(Stream::Image, img), sound: true }),
        st[FluxBuf::Text] == (Origin { rows: stream_rows(Stream::Text, txt), sound: true }),
    ensures
        ({
            let r = run(st, double_block(w, idx, d, width, img, txt), following(img, txt), idx);
            r[FluxBuf::Image].sound && r[FluxBuf::Text].sound
        }),
{
    let a = following(img, txt);
    law_double_block_is_computed(st, a, w, idx, d, width, img, txt);
    let (i, t) = (st[FluxBuf::Image], st[FluxBuf::Text]);
    let ti = (a.join)(t, i);
    let it = (a.join)(i, t);
    assert forall|j: int| 0 <= j < img implies ti.rows.contains((Stream::Image, j)) && it.rows.contains(
        (Stream::Image, j),
    ) by {
        assert(ti.rows[txt + j] == (Stream::Image, j));
        assert(it.rows[j] == (Stream::Image, j));
    }
    assert forall|j: int| 0 <= j < txt implies ti.rows.contains((Stream::Text, j)) && it.rows.contains(
        (Stream::Text, j),
    ) by {
        assert(ti.rows[j] == (Stream::Text, j));
        assert(it.rows[img + j] == (Stream::Text, j));
    }
    assert(properly_seen(ti, ti, img, txt, img + txt));
    assert(properly_seen(it, it, img, txt, img + txt));
}

} // verus!
