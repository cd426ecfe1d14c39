//! What a pass computes.
use vstd::prelude::*;

use crate::llm::pass_meaning::{
    does, first, layer_out, lemma_run_chain, lemma_run_push, run, Activation, Arithmetic, PassState,
};
use crate::llm::plan::{
    attend_steps, batch_step, chain, ffn_steps, going, head_norm_part, layer_part, model_rows,
    norm_part, qkv_steps, rows_of, Names, PassKind, Step,
};
use crate::llm::shape::{Buf, Shape};
use crate::llm::weight::{weight_name, Weight};

verus! {

/// Two states differ in the given buffers at most.
pub open spec fn same_but<E, C>(x: PassState<E, C>, y: PassState<E, C>, bufs: Set<Buf>) -> bool {
    forall|b: Buf, i: int| !bufs.contains(b) ==> #[trigger] (y.bufs)(b, i) == (x.bufs)(b, i)
}

pub proof fn lemma_frame<E, C>(
    x: PassState<E, C>,
    y: PassState<E, C>,
    bufs: Set<Buf>,
    b: Buf,
    from: int,
    n: int,
)
    requires
        same_but(x, y, bufs),
        !bufs.contains(b),
    ensures
        y.read(b, from, n) == x.read(b, from, n),
{
    assert(y.read(b, from, n) =~= x.read(b, from, n));
}

pub proof fn lemma_run1<E, C>(st: PassState<E, C>, x: Step, a: Arithmetic<E, C>, s: Shape)
    ensures
        run(st, seq![x], a, s) == does(st, x, a, s),
{
    lemma_run_push(st, Seq::empty(), x, a, s);
}

pub proof fn lemma_run2<E, C>(st: PassState<E, C>, x: Step, y: Step, a: Arithmetic<E, C>, s: Shape)
    ensures
        run(st, seq![x, y], a, s) == does(does(st, x, a, s), y, a, s),
{
    lemma_run1(st, x, a, s);
    lemma_run_push(st, seq![x], y, a, s);
    assert(seq![x, y] =~= seq![x].push(y));
}

proof fn lemma_run3<E, C>(
    st: PassState<E, C>,
    x: Step,
    y: Step,
    z: Step,
    a: Arithmetic<E, C>,
    s: Shape,
)
    ensures
        run(st, seq![x, y, z], a, s) == does(does(does(st, x, a, s), y, a, s), z, a, s),
{
    lemma_run2(st, x, y, a, s);
    lemma_run_push(st, seq![x, y], z, a, s);
    assert(seq![x, y, z] =~= seq![x, y].push(z));
}

proof fn lemma_run4<E, C>(
    st: PassState<E, C>,
    x: Step,
    y: Step,
    z: Step,
    w: Step,
    a: Arithmetic<E, C>,
    s: Shape,
)
    ensures
        run(st, seq![x, y, z, w], a, s) == does(
            does(does(does(st, x, a, s), y, a, s), z, a, s),
            w,
            a,
            s,
        ),
{
    lemma_run3(st, x, y, z, a, s);
    lemma_run_push(st, seq![x, y, z], w, a, s);
    assert(seq![x, y, z, w] =~= seq![x, y, z].push(w));
}

/// The parts of buffers that steps name have the lengths that they are meant to have.
pub proof fn lemma_spans(s: Shape, tokens: int)
    requires
        s.fits(tokens),
        0 <= tokens,
    ensures
        forall|b: Buf|
            (#[trigger] rows_of(s, b, tokens)).buf == b && rows_of(s, b, tokens).start == 0 && rows_of(
                s,
                b,
                tokens,
            ).len == tokens * s.width(b),
        forall|b: Buf|
            (#[trigger] model_rows(s, b, tokens)).buf == b && model_rows(s, b, tokens).start == 0
                && model_rows(s, b, tokens).len == tokens * s.d,
        0 <= s.nq() <= usize::MAX,
        0 <= s.nkv() <= usize::MAX,
        0 <= tokens * s.d,
        0 <= tokens * s.nq(),
        0 <= tokens * s.nkv(),
        0 <= tokens * s.ffn,
        tokens * 0 == 0,
{
    assert(0 <= s.nq() && 0 <= s.nkv()) by (nonlinear_arith)
        requires
            s.nq() == s.n_heads * s.head_dim,
            s.nkv() == s.n_kv_heads * s.head_dim,
    {
    }
    let (d, q, k, f) = (s.d as int, s.nq(), s.nkv(), s.ffn as int);
    assert(0 <= tokens * d && 0 <= tokens * q && 0 <= tokens * k && 0 <= tokens * f && tokens * 0
        == 0) by (nonlinear_arith)
        requires
            0 <= tokens,
            0 <= d,
            0 <= q,
            0 <= k,
            0 <= f,
    {
    }
}

proof fn lemma_norm<E, C>(
    st: PassState<E, C>,
    a: Arithmetic<E, C>,
    s: Shape,
    n: Names,
    w: Weight,
    tokens: int,
)
    requires
        s.fits(tokens),
        0 <= tokens <= usize::MAX,
        norm_part(s, n, w, tokens).ok,
    ensures
        ({
            let r = run(st, norm_part(s, n, w, tokens).steps, a, s);
            &&& r.read(Buf::Residual, 0, tokens * s.d) == a.normed(
                weight_name(w),
                st.read(Buf::Hidden, 0, tokens * s.d),
                tokens,
            )
            &&& same_but(st, r, set![Buf::NormTmp, Buf::Residual])
            &&& r.caches == st.caches
            &&& r.polls == st.polls
            &&& r.len == st.len
        }),
{
    reveal(norm_part);
    lemma_spans(s, tokens);
    let (h, t, r) = (
        rows_of(s, Buf::Hidden, tokens),
        rows_of(s, Buf::NormTmp, tokens),
        rows_of(s, Buf::Residual, tokens),
    );
    let copy = Step::Copy { from: h, to: t };
    let norm = Step::Norm { weight: w, input: t, output: r, rows: tokens as usize };
    assert(norm_part(s, n, w, tokens).steps =~= seq![copy, norm]);
    lemma_run2(st, copy, norm, a, s);
    let s1 = does(st, copy, a, s);
    let x = st.part(h);
    st.lemma_read_put(Buf::NormTmp, 0, t.len as int, x, Buf::Hidden, 0, 0);
    assert(first(x, t.len as int) =~= x);
    let y = a.normed(weight_name(w), x, tokens);
    s1.lemma_read_put(Buf::Residual, 0, r.len as int, y, Buf::Hidden, 0, 0);
    assert(first(y, r.len as int) =~= y);
}

/// The products that give queries, keys and values.
spec fn projected(s: Shape, layer: usize, kind: PassKind, tokens: int) -> Seq<Step> {
    let quant = Step::Quantize {
        input: rows_of(s, Buf::Residual, tokens),
        rows: tokens as usize,
    };
    if kind is Single {
        seq![
            quant,
            Step::Qkv {
                layer,
                input: rows_of(s, Buf::Residual, 1),
                q: rows_of(s, Buf::QBuf, 1),
                k: rows_of(s, Buf::KBuf, 1),
                v: rows_of(s, Buf::VBuf, 1),
            },
        ]
    } else {
        seq![
            quant,
            batch_step(s, Weight::AttnQ(layer), Buf::Residual, Buf::QBuf, s.nq(), s.d as int, tokens),
            batch_step(s, Weight::AttnK(layer), Buf::Residual, Buf::KBuf, s.nkv(), s.d as int, tokens),
            batch_step(s, Weight::AttnV(layer), Buf::Residual, Buf::VBuf, s.nkv(), s.d as int, tokens),
        ]
    }
}

#[verifier::spinoff_prover]
#[verifier::rlimit(60)]
proof fn lemma_projected<E, C>(
    st: PassState<E, C>,
    a: Arithmetic<E, C>,
    s: Shape,
    layer: usize,
    kind: PassKind,
    tokens: int,
)
    requires
        s.fits(tokens),
        0 <= tokens <= usize::MAX,
        kind is Single ==> tokens == 1,
    ensures
        ({
            let r = run(st, projected(s, layer, kind, tokens), a, s);
            let (lq, lk, ld) = (tokens * s.nq(), tokens * s.nkv(), tokens * s.d);
            let x = shared(layer, kind, tokens, st.read(Buf::Residual, 0, ld));
            let (nq, nkv, d) = (s.nq(), s.nkv(), s.d as int);
            &&& r.read(Buf::QBuf, 0, lq) == a.times(weight_name(Weight::AttnQ(layer)), x, tokens, nq, d)
            &&& r.read(Buf::KBuf, 0, lk) == a.times(weight_name(Weight::AttnK(layer)), x, tokens, nkv, d)
            &&& r.read(Buf::VBuf, 0, lk) == a.times(weight_name(Weight::AttnV(layer)), x, tokens, nkv, d)
            &&& r.read(Buf::Hidden, 0, ld) == st.read(Buf::Hidden, 0, ld)
            &&& r.caches == st.caches
            &&& r.polls == st.polls
            &&& r.len == st.len
        }),
{
    lemma_spans(s, tokens);
    let (lq, lk, ld) = (tokens * s.nq(), tokens * s.nkv(), tokens * s.d);
    let n1 = st.read(Buf::Residual, 0, ld);
    let x = shared(layer, kind, tokens, n1);
    let q = a.times(weight_name(Weight::AttnQ(layer)), x, tokens, s.nq(), s.d as int);
    let k = a.times(weight_name(Weight::AttnK(layer)), x, tokens, s.nkv(), s.d as int);
    let v = a.times(weight_name(Weight::AttnV(layer)), x, tokens, s.nkv(), s.d as int);
    let steps = projected(s, layer, kind, tokens);
    let s1 = does(st, steps[0], a, s);
    assert(s1.read(Buf::Residual, 0, ld) =~= n1);
    assert(s1.read(Buf::Hidden, 0, ld) =~= st.read(Buf::Hidden, 0, ld));
    let b1 = s1.put(Buf::QBuf, 0, lq, q);
    let b2 = b1.put(Buf::KBuf, 0, lk, k);
    let b3 = b2.put(Buf::VBuf, 0, lk, v);
    assert(1 * s.d == s.d && 1 * s.nq() == s.nq() && 1 * s.nkv() == s.nkv());
    s1.lemma_read_put(Buf::QBuf, 0, lq, q, Buf::Residual, 0, ld);
    s1.lemma_read_put(Buf::QBuf, 0, lq, q, Buf::Hidden, 0, ld);
    b1.lemma_read_put(Buf::KBuf, 0, lk, k, Buf::Residual, 0, ld);
    b1.lemma_read_put(Buf::KBuf, 0, lk, k, Buf::Hidden, 0, ld);
    b1.lemma_read_put(Buf::KBuf, 0, lk, k, Buf::QBuf, 0, lq);
    b2.lemma_read_put(Buf::VBuf, 0, lk, v, Buf::QBuf, 0, lq);
    b2.lemma_read_put(Buf::VBuf, 0, lk, v, Buf::KBuf, 0, lk);
    b2.lemma_read_put(Buf::VBuf, 0, lk, v, Buf::Hidden, 0, ld);
    assert(first(q, lq) =~= q && first(k, lk) =~= k && first(v, lk) =~= v);
    if kind is Single {
        lemma_run2(st, steps[0], steps[1], a, s);
        assert(steps =~= seq![steps[0], steps[1]]);
        assert(does(s1, steps[1], a, s) == b3);
    } else {
        lemma_run4(st, steps[0], steps[1], steps[2], steps[3], a, s);
        assert(steps =~= seq![steps[0], steps[1], steps[2], steps[3]]);
        assert(does(s1, steps[1], a, s) == b1);
        assert(does(b1, steps[2], a, s) == b2);
        assert(does(b2, steps[3], a, s) == b3);
    }
}

/// Queries, keys and values go to the buffers of the heads.
#[verifier::spinoff_prover]
#[verifier::rlimit(60)]
proof fn lemma_copies<E, C>(st: PassState<E, C>, a: Arithmetic<E, C>, s: Shape, tokens: int)
    requires
        s.fits(tokens),
        0 <= tokens <= usize::MAX,
    ensures
        ({
            let r = run(
                st,
                seq![
                    Step::Copy {
                        from: rows_of(s, Buf::QBuf, tokens),
                        to: rows_of(s, Buf::QHeads, tokens),
                    },
                    Step::Copy {
                        from: rows_of(s, Buf::KBuf, tokens),
                        to: rows_of(s, Buf::KHeads, tokens),
                    },
                    Step::Copy {
                        from: rows_of(s, Buf::VBuf, tokens),
                        to: rows_of(s, Buf::VHeads, tokens),
                    },
                ],
                a,
                s,
            );
            let (lq, lk, ld) = (tokens * s.nq(), tokens * s.nkv(), tokens * s.d);
            &&& r.read(Buf::QHeads, 0, lq) == st.read(Buf::QBuf, 0, lq)
            &&& r.read(Buf::KHeads, 0, lk) == st.read(Buf::KBuf, 0, lk)
            &&& r.read(Buf::VHeads, 0, lk) == st.read(Buf::VBuf, 0, lk)
            &&& r.read(Buf::Hidden, 0, ld) == st.read(Buf::Hidden, 0, ld)
            &&& r.caches == st.caches
            &&& r.polls == st.polls
            &&& r.len == st.len
        }),
{
    lemma_spans(s, tokens);
    let (lq, lk, ld) = (tokens * s.nq(), tokens * s.nkv(), tokens * s.d);
    let (q, k, v) = (
        st.read(Buf::QBuf, 0, lq),
        st.read(Buf::KBuf, 0, lk),
        st.read(Buf::VBuf, 0, lk),
    );
    let x = Step::Copy {
        from: rows_of(s, Buf::QBuf, tokens),
        to: rows_of(s, Buf::QHeads, tokens),
    };
    let y = Step::Copy {
        from: rows_of(s, Buf::KBuf, tokens),
        to: rows_of(s, Buf::KHeads, tokens),
    };
    let z = Step::Copy {
        from: rows_of(s, Buf::VBuf, tokens),
        to: rows_of(s, Buf::VHeads, tokens),
    };
    lemma_run3(st, x, y, z, a, s);
    let c1 = st.put(Buf::QHeads, 0, lq, q);
    let c2 = c1.put(Buf::KHeads, 0, lk, k);
    let c3 = c2.put(Buf::VHeads, 0, lk, v);
    st.lemma_read_put(Buf::QHeads, 0, lq, q, Buf::KBuf, 0, lk);
    st.lemma_read_put(Buf::QHeads, 0, lq, q, Buf::VBuf, 0, lk);
    st.lemma_read_put(Buf::QHeads, 0, lq, q, Buf::Hidden, 0, ld);
    c1.lemma_read_put(Buf::KHeads, 0, lk, k, Buf::VBuf, 0, lk);
    c1.lemma_read_put(Buf::KHeads, 0, lk, k, Buf::QHeads, 0, lq);
    c1.lemma_read_put(Buf::KHeads, 0, lk, k, Buf::Hidden, 0, ld);
    c2.lemma_read_put(Buf::VHeads, 0, lk, v, Buf::QHeads, 0, lq);
    c2.lemma_read_put(Buf::VHeads, 0, lk, v, Buf::KHeads, 0, lk);
    c2.lemma_read_put(Buf::VHeads, 0, lk, v, Buf::Hidden, 0, ld);
    assert(first(q, lq) =~= q && first(k, lk) =~= k && first(v, lk) =~= v);
    assert(does(st, x, a, s) == c1);
    assert(does(c1, y, a, s) == c2);
    assert(does(c2, z, a, s) == c3);
}

/// Queries, keys and values of a normalised state.
proof fn lemma_qkv<E, C>(
    st: PassState<E, C>,
    a: Arithmetic<E, C>,
    s: Shape,
    layer: usize,
    kind: PassKind,
    tokens: int,
)
    requires
        s.fits(tokens),
        0 <= tokens <= usize::MAX,
        kind is Single ==> tokens == 1,
    ensures
        ({
            let r = run(st, qkv_steps(s, layer, kind, tokens), a, s);
            let (lq, lk, ld) = (tokens * s.nq(), tokens * s.nkv(), tokens * s.d);
            let x = shared(layer, kind, tokens, st.read(Buf::Residual, 0, ld));
            let (nq, nkv, d) = (s.nq(), s.nkv(), s.d as int);
            &&& r.read(Buf::QHeads, 0, lq) == a.times(weight_name(Weight::AttnQ(layer)), x, tokens, nq, d)
            &&& r.read(Buf::KHeads, 0, lk) == a.times(weight_name(Weight::AttnK(layer)), x, tokens, nkv, d)
            &&& r.read(Buf::VHeads, 0, lk) == a.times(weight_name(Weight::AttnV(layer)), x, tokens, nkv, d)
            &&& r.read(Buf::Hidden, 0, ld) == st.read(Buf::Hidden, 0, ld)
            &&& r.caches == st.caches
            &&& r.polls == st.polls
            &&& r.len == st.len
        }),
{
    reveal(qkv_steps);
    let x = projected(s, layer, kind, tokens);
    let y = seq![
        Step::Copy { from: rows_of(s, Buf::QBuf, tokens), to: rows_of(s, Buf::QHeads, tokens) },
        Step::Copy { from: rows_of(s, Buf::KBuf, tokens), to: rows_of(s, Buf::KHeads, tokens) },
        Step::Copy { from: rows_of(s, Buf::VBuf, tokens), to: rows_of(s, Buf::VHeads, tokens) },
    ];
    assert(qkv_steps(s, layer, kind, tokens) =~= x + y);
    lemma_run_chain(st, x, y, a, s);
    lemma_projected(st, a, s, layer, kind, tokens);
    lemma_copies(run(st, x, a, s), a, s, tokens);
}

/// Heads are normalised where the model has a weight for that.
proof fn lemma_head_norm<E, C>(
    st: PassState<E, C>,
    a: Arithmetic<E, C>,
    s: Shape,
    n: Names,
    w: Weight,
    buf: Buf,
    heads: usize,
    tokens: int,
)
    requires
        0 <= tokens <= usize::MAX,
        head_norm_part(n, w, buf, heads, tokens).ok,
    ensures
        ({
            let r = run(st, head_norm_part(n, w, buf, heads, tokens).steps, a, s);
            let len = tokens * (heads * s.head_dim);
            let x = st.read(buf, 0, len);
            &&& r.read(buf, 0, len) == if n.tensors.contains(weight_name(w)) {
                a.heads_normed(weight_name(w), x, heads as int, tokens)
            } else {
                x
            }
            &&& same_but(st, r, set![buf])
            &&& r.caches == st.caches
            &&& r.polls == st.polls
            &&& r.len == st.len
        }),
{
    reveal(head_norm_part);
    let len = tokens * (heads * s.head_dim);
    let x = st.read(buf, 0, len);
    assert(0 <= len) by (nonlinear_arith)
        requires
            len == tokens * (heads * s.head_dim),
            0 <= tokens,
    {
        assert(0 <= heads * s.head_dim);
    }
    if n.tensors.contains(weight_name(w)) {
        let step = Step::HeadNorm { weight: w, buf, heads, tokens: tokens as usize };
        assert(head_norm_part(n, w, buf, heads, tokens).steps =~= seq![step]);
        lemma_run1(st, step, a, s);
        let y = a.heads_normed(weight_name(w), x, heads as int, tokens);
        st.lemma_read_put(buf, 0, len, y, buf, 0, 0);
        assert(first(y, len) =~= y);
    } else {
        assert(head_norm_part(n, w, buf, heads, tokens).steps =~= Seq::empty());
    }
}

/// How a product with an activation of its own sees that activation.
spec fn alone<E>(s: Shape, layer: usize, kind: PassKind, tokens: int, x: Seq<E>) -> Activation<E> {
    Activation {
        values: x,
        quantised: if !(kind is Single) || s.d >= 2560 {
            Some((tokens, x))
        } else {
            None
        },
        layer: if kind is Single {
            Some(layer)
        } else {
            None
        },
    }
}

/// How a product sees an activation that it shares.
spec fn shared<E>(layer: usize, kind: PassKind, tokens: int, x: Seq<E>) -> Activation<E> {
    Activation {
        values: x,
        quantised: Some((tokens, x)),
        layer: if kind is Single {
            Some(layer)
        } else {
            None
        },
    }
}

/// The addition to the state.
proof fn lemma_add<E, C>(st: PassState<E, C>, a: Arithmetic<E, C>, s: Shape, tokens: int)
    requires
        s.fits(tokens),
        0 <= tokens <= usize::MAX,
    ensures
        ({
            let added = Step::Add {
                into: rows_of(s, Buf::Hidden, tokens),
                from: model_rows(s, Buf::QBuf, tokens),
            };
            let r = run(st, seq![added], a, s);
            let ld = tokens * s.d;
            &&& r.read(Buf::Hidden, 0, ld) == a.added(
                st.read(Buf::Hidden, 0, ld),
                st.read(Buf::QBuf, 0, ld),
            )
            &&& r.caches == st.caches
            &&& r.polls == st.polls
            &&& r.len == st.len
        }),
{
    lemma_spans(s, tokens);
    let ld = tokens * s.d;
    let added = Step::Add {
        into: rows_of(s, Buf::Hidden, tokens),
        from: model_rows(s, Buf::QBuf, tokens),
    };
    lemma_run1(st, added, a, s);
    let h = a.added(st.read(Buf::Hidden, 0, ld), st.read(Buf::QBuf, 0, ld));
    st.lemma_read_put(Buf::Hidden, 0, ld, h, Buf::QBuf, 0, 0);
    assert(first(h, ld) =~= h);
}

/// Queries and keys are rotated, and keys and values are stored.
proof fn lemma_place<E, C>(
    st: PassState<E, C>,
    a: Arithmetic<E, C>,
    s: Shape,
    layer: usize,
    tokens: int,
    pos: usize,
)
    requires
        s.fits(tokens),
        0 <= tokens <= usize::MAX,
    ensures
        ({
            let t = tokens as usize;
            let r = run(
                st,
                seq![
                    Step::Rope { buf: Buf::QHeads, heads: s.n_heads, tokens: t, first_pos: pos },
                    Step::Rope { buf: Buf::KHeads, heads: s.n_kv_heads, tokens: t, first_pos: pos },
                    Step::WriteKv { layer, tokens: t, first_pos: pos },
                ],
                a,
                s,
            );
            let (lq, lk, ld) = (tokens * s.nq(), tokens * s.nkv(), tokens * s.d);
            let q = st.read(Buf::QHeads, 0, lq);
            let k = st.read(Buf::KHeads, 0, lk);
            let v = st.read(Buf::VHeads, 0, lk);
            &&& r.read(Buf::QHeads, 0, lq) == a.rotated(q, s.n_heads as int, tokens, pos as int)
            &&& (r.caches)(layer) == (a.store)(
                (st.caches)(layer),
                a.rotated(k, s.n_kv_heads as int, tokens, pos as int),
                v,
                tokens,
                pos as int,
            )
            &&& forall|l: usize| l != layer ==> #[trigger] (r.caches)(l) == (st.caches)(l)
            &&& r.read(Buf::Hidden, 0, ld) == st.read(Buf::Hidden, 0, ld)
            &&& r.polls == st.polls
            &&& r.len == st.len
        }),
{
    lemma_spans(s, tokens);
    let t = tokens as usize;
    let (lq, lk, ld) = (tokens * s.nq(), tokens * s.nkv(), tokens * s.d);
    let (qh, kh) = (Buf::QHeads, Buf::KHeads);
    let q = a.rotated(st.read(qh, 0, lq), s.n_heads as int, tokens, pos as int);
    let k = a.rotated(st.read(kh, 0, lk), s.n_kv_heads as int, tokens, pos as int);
    let v = st.read(Buf::VHeads, 0, lk);
    lemma_run3(
        st,
        Step::Rope { buf: qh, heads: s.n_heads, tokens: t, first_pos: pos },
        Step::Rope { buf: kh, heads: s.n_kv_heads, tokens: t, first_pos: pos },
        Step::WriteKv { layer, tokens: t, first_pos: pos },
        a,
        s,
    );
    let s1 = st.put(qh, 0, lq, q);
    let s2 = s1.put(kh, 0, lk, k);
    st.lemma_read_put(qh, 0, lq, q, kh, 0, lk);
    st.lemma_read_put(qh, 0, lq, q, Buf::VHeads, 0, lk);
    st.lemma_read_put(qh, 0, lq, q, Buf::Hidden, 0, ld);
    s1.lemma_read_put(kh, 0, lk, k, Buf::VHeads, 0, lk);
    s1.lemma_read_put(kh, 0, lk, k, qh, 0, lq);
    s1.lemma_read_put(kh, 0, lk, k, Buf::Hidden, 0, ld);
    assert(first(q, lq) =~= q && first(k, lk) =~= k);
    let held = (a.store)((st.caches)(layer), k, v, tokens, pos as int);
    let s3 = s2.put_cache(layer, held);
    assert(s3.read(qh, 0, lq) =~= q);
    assert(s3.read(Buf::Hidden, 0, ld) =~= st.read(Buf::Hidden, 0, ld));
}

/// What is attended to, and its product.
spec fn middle(s: Shape, layer: usize, kind: PassKind, tokens: int, seq_len: usize) -> Seq<Step> {
    let t = tokens as usize;
    if kind is Single {
        seq![
            Step::Clear { span: rows_of(s, Buf::AttnOut, 1) },
            Step::Attend { layer, seq_len },
            Step::Matmul {
                weight: Weight::AttnOutput(layer),
                layer,
                input: rows_of(s, Buf::AttnOut, 1),
                output: model_rows(s, Buf::QBuf, 1),
                reuse: s.d >= 2560,
            },
        ]
    } else {
        seq![
            Step::AttendBatch { layer, tokens: t },
            Step::Quantize { input: rows_of(s, Buf::AttnOut, tokens), rows: t },
            batch_step(s, Weight::AttnOutput(layer), Buf::AttnOut, Buf::QBuf, s.d as int, s.nq(), tokens),
        ]
    }
}

spec fn raw_attention<E, C>(
    a: Arithmetic<E, C>,
    kind: PassKind,
    tokens: int,
    seq_len: usize,
    held: C,
    q: Seq<E>,
) -> Seq<E> {
    if kind is Single {
        (a.attend)(held, q, seq_len as int)
    } else {
        (a.attend_batch)(held, q, tokens)
    }
}

#[verifier::spinoff_prover]
#[verifier::rlimit(50)]
proof fn lemma_middle<E, C>(
    st: PassState<E, C>,
    a: Arithmetic<E, C>,
    s: Shape,
    layer: usize,
    kind: PassKind,
    tokens: int,
    seq_len: usize,
)
    requires
        s.fits(tokens),
        0 <= tokens <= usize::MAX,
        kind is Single ==> tokens == 1,
    ensures
        ({
            let r = run(st, middle(s, layer, kind, tokens, seq_len), a, s);
            let (lq, ld) = (tokens * s.nq(), tokens * s.d);
            let attended = first(
                raw_attention(
                    a,
                    kind,
                    tokens,
                    seq_len,
                    (st.caches)(layer),
                    st.read(Buf::QHeads, 0, lq),
                ),
                lq,
            );
            &&& r.read(Buf::QBuf, 0, ld) == a.times(
                weight_name(Weight::AttnOutput(layer)),
                alone(s, layer, kind, tokens, attended),
                tokens,
                s.d as int,
                s.nq(),
            )
            &&& r.read(Buf::Hidden, 0, ld) == st.read(Buf::Hidden, 0, ld)
            &&& r.caches == st.caches
            &&& r.polls == st.polls
            &&& r.len == st.len
        }),
{
    lemma_spans(s, tokens);
    let (lq, ld) = (tokens * s.nq(), tokens * s.d);
    let (qh, ao) = (Buf::QHeads, Buf::AttnOut);
    let steps = middle(s, layer, kind, tokens, seq_len);
    lemma_run3(st, steps[0], steps[1], steps[2], a, s);
    assert(steps =~= seq![steps[0], steps[1], steps[2]]);
    let raw = raw_attention(a, kind, tokens, seq_len, (st.caches)(layer), st.read(qh, 0, lq));
    let attended = first(raw, lq);
    let o = a.times(
        weight_name(Weight::AttnOutput(layer)),
        alone(s, layer, kind, tokens, attended),
        tokens,
        s.d as int,
        s.nq(),
    );
    let r = run(st, steps, a, s);
    assert(first(o, ld) =~= o);
    if kind is Single {
        assert(1 * s.d == s.d && 1 * s.nq() == s.nq());
        let zeros = Seq::new(rows_of(s, ao, 1).len as nat, |i: int| a.zero);
        let c1 = st.put(ao, 0, lq, zeros);
        assert(does(st, steps[0], a, s) == c1);
        st.lemma_read_put(ao, 0, lq, zeros, qh, 0, lq);
        st.lemma_read_put(ao, 0, lq, zeros, Buf::Hidden, 0, ld);
        let c2 = c1.put(ao, 0, lq, raw);
        assert(does(c1, steps[1], a, s) == c2);
        c1.lemma_read_put(ao, 0, lq, raw, Buf::Hidden, 0, ld);
        assert(does(c2, steps[2], a, s) == c2.put(Buf::QBuf, 0, ld, o));
        c2.lemma_read_put(Buf::QBuf, 0, ld, o, Buf::Hidden, 0, ld);
    } else {
        let c1 = st.put(ao, 0, lq, raw);
        assert(does(st, steps[0], a, s) == c1);
        st.lemma_read_put(ao, 0, lq, raw, Buf::Hidden, 0, ld);
        let c2 = does(c1, steps[1], a, s);
        assert(c2.read(ao, 0, lq) =~= attended);
        assert(c2.read(Buf::Hidden, 0, ld) =~= c1.read(Buf::Hidden, 0, ld));
        assert(does(c2, steps[2], a, s) == c2.put(Buf::QBuf, 0, ld, o));
        c2.lemma_read_put(Buf::QBuf, 0, ld, o, Buf::Hidden, 0, ld);
    }
}

/// Attention, its product and the addition to the state.
proof fn lemma_attend<E, C>(
    st: PassState<E, C>,
    a: Arithmetic<E, C>,
    s: Shape,
    layer: usize,
    kind: PassKind,
    tokens: int,
    pos: usize,
    seq_len: usize,
)
    requires
        s.fits(tokens),
        0 <= tokens <= usize::MAX,
        kind is Single ==> tokens == 1,
    ensures
        ({
            let r = run(st, attend_steps(s, layer, kind, tokens, pos, seq_len), a, s);
            let (lq, lk) = (tokens * s.nq(), tokens * s.nkv());
            let q = a.rotated(
                st.read(Buf::QHeads, 0, lq),
                s.n_heads as int,
                tokens,
                pos as int,
            );
            let k = a.rotated(
                st.read(Buf::KHeads, 0, lk),
                s.n_kv_heads as int,
                tokens,
                pos as int,
            );
            let v = st.read(Buf::VHeads, 0, lk);
            let held = (a.store)((st.caches)(layer), k, v, tokens, pos as int);
            let attended = first(raw_attention(a, kind, tokens, seq_len, held, q), lq);
            let o = a.times(
                weight_name(Weight::AttnOutput(layer)),
                alone(s, layer, kind, tokens, attended),
                tokens,
                s.d as int,
                s.nq(),
            );
            &&& r.read(Buf::Hidden, 0, tokens * s.d) == a.added(
                st.read(Buf::Hidden, 0, tokens * s.d),
                o,
            )
            &&& (r.caches)(layer) == held
            &&& forall|l: usize| l != layer ==> #[trigger] (r.caches)(l) == (st.caches)(l)
            &&& r.polls == st.polls
            &&& r.len == st.len
        }),
{
    reveal(attend_steps);
    let t = tokens as usize;
    let placed = seq![
        Step::Rope { buf: Buf::QHeads, heads: s.n_heads, tokens: t, first_pos: pos },
        Step::Rope { buf: Buf::KHeads, heads: s.n_kv_heads, tokens: t, first_pos: pos },
        Step::WriteKv { layer, tokens: t, first_pos: pos },
    ];
    let m = middle(s, layer, kind, tokens, seq_len);
    let last = seq![
        Step::Add { into: rows_of(s, Buf::Hidden, tokens), from: model_rows(s, Buf::QBuf, tokens) },
    ];
    assert(attend_steps(s, layer, kind, tokens, pos, seq_len) =~= placed + m + last);
    lemma_run_chain(st, placed + m, last, a, s);
    lemma_run_chain(st, placed, m, a, s);
    lemma_place(st, a, s, layer, tokens, pos);
    let s1 = run(st, placed, a, s);
    lemma_middle(s1, a, s, layer, kind, tokens, seq_len);
    lemma_add(run(s1, m, a, s), a, s, tokens);
}

/// The products that open the feed-forward part.
spec fn opened(s: Shape, layer: usize, kind: PassKind, tokens: int) -> Seq<Step> {
    let quant = Step::Quantize {
        input: rows_of(s, Buf::Residual, tokens),
        rows: tokens as usize,
    };
    if kind is Single {
        seq![
            quant,
            Step::GateUp {
                layer,
                input: rows_of(s, Buf::Residual, 1),
                gate: rows_of(s, Buf::Gate, 1),
                up: rows_of(s, Buf::Up, 1),
            },
        ]
    } else {
        seq![
            quant,
            batch_step(s, Weight::FfnGate(layer), Buf::Residual, Buf::Gate, s.ffn as int, s.d as int, tokens),
            batch_step(s, Weight::FfnUp(layer), Buf::Residual, Buf::Up, s.ffn as int, s.d as int, tokens),
        ]
    }
}

#[verifier::spinoff_prover]
#[verifier::rlimit(50)]
proof fn lemma_opened<E, C>(
    st: PassState<E, C>,
    a: Arithmetic<E, C>,
    s: Shape,
    layer: usize,
    kind: PassKind,
    tokens: int,
)
    requires
        s.fits(tokens),
        0 <= tokens <= usize::MAX,
        kind is Single ==> tokens == 1,
    ensures
        ({
            let r = run(st, opened(s, layer, kind, tokens), a, s);
            let (ld, lf) = (tokens * s.d, tokens * s.ffn);
            let x = shared(layer, kind, tokens, st.read(Buf::Residual, 0, ld));
            &&& r.read(Buf::Gate, 0, lf) == a.times(
                weight_name(Weight::FfnGate(layer)),
                x,
                tokens,
                s.ffn as int,
                s.d as int,
            )
            &&& r.read(Buf::Up, 0, lf) == a.times(
                weight_name(Weight::FfnUp(layer)),
                x,
                tokens,
                s.ffn as int,
                s.d as int,
            )
            &&& r.read(Buf::Hidden, 0, ld) == st.read(Buf::Hidden, 0, ld)
            &&& r.caches == st.caches
            &&& r.polls == st.polls
            &&& r.len == st.len
        }),
{
    lemma_spans(s, tokens);
    let (ld, lf) = (tokens * s.d, tokens * s.ffn);
    let n2 = st.read(Buf::Residual, 0, ld);
    let x = shared(layer, kind, tokens, n2);
    let gate = a.times(weight_name(Weight::FfnGate(layer)), x, tokens, s.ffn as int, s.d as int);
    let up = a.times(weight_name(Weight::FfnUp(layer)), x, tokens, s.ffn as int, s.d as int);
    let steps = opened(s, layer, kind, tokens);
    let s1 = does(st, steps[0], a, s);
    assert(s1.read(Buf::Residual, 0, ld) =~= n2);
    assert(s1.read(Buf::Hidden, 0, ld) =~= st.read(Buf::Hidden, 0, ld));
    assert(1 * s.d == s.d && 1 * s.ffn == s.ffn);
    let g1 = s1.put(Buf::Gate, 0, lf, gate);
    let g2 = g1.put(Buf::Up, 0, lf, up);
    s1.lemma_read_put(Buf::Gate, 0, lf, gate, Buf::Residual, 0, ld);
    s1.lemma_read_put(Buf::Gate, 0, lf, gate, Buf::Hidden, 0, ld);
    g1.lemma_read_put(Buf::Up, 0, lf, up, Buf::Gate, 0, lf);
    g1.lemma_read_put(Buf::Up, 0, lf, up, Buf::Hidden, 0, ld);
    assert(first(gate, lf) =~= gate && first(up, lf) =~= up);
    if kind is Single {
        lemma_run2(st, steps[0], steps[1], a, s);
        assert(steps =~= seq![steps[0], steps[1]]);
        assert(does(s1, steps[1], a, s) == g2);
    } else {
        lemma_run3(st, steps[0], steps[1], steps[2], a, s);
        assert(steps =~= seq![steps[0], steps[1], steps[2]]);
        assert(does(s1, steps[1], a, s) == g1);
        assert(does(g1, steps[2], a, s) == g2);
    }
}

/// The product that closes the feed-forward part.
spec fn closed_by(s: Shape, layer: usize, kind: PassKind, tokens: int) -> Seq<Step> {
    if kind is Single {
        seq![
            Step::Matmul {
                weight: Weight::FfnDown(layer),
                layer,
                input: rows_of(s, Buf::FfnTmp, 1),
                output: model_rows(s, Buf::QBuf, 1),
                reuse: s.d >= 2560,
            },
        ]
    } else {
        seq![
            Step::Quantize { input: rows_of(s, Buf::FfnTmp, tokens), rows: tokens as usize },
            batch_step(s, Weight::FfnDown(layer), Buf::FfnTmp, Buf::QBuf, s.d as int, s.ffn as int, tokens),
        ]
    }
}

#[verifier::spinoff_prover]
#[verifier::rlimit(50)]
proof fn lemma_closed<E, C>(
    st: PassState<E, C>,
    a: Arithmetic<E, C>,
    s: Shape,
    layer: usize,
    kind: PassKind,
    tokens: int,
)
    requires
        s.fits(tokens),
        0 <= tokens <= usize::MAX,
        kind is Single ==> tokens == 1,
    ensures
        ({
            let joined = Step::SiluMul {
                gate: rows_of(s, Buf::Gate, tokens),
                up: rows_of(s, Buf::Up, tokens),
                output: rows_of(s, Buf::FfnTmp, tokens),
            };
            let r = run(st, seq![joined] + closed_by(s, layer, kind, tokens), a, s);
            let (ld, lf) = (tokens * s.d, tokens * s.ffn);
            let m = a.activated(st.read(Buf::Gate, 0, lf), st.read(Buf::Up, 0, lf));
            &&& r.read(Buf::QBuf, 0, ld) == a.times(
                weight_name(Weight::FfnDown(layer)),
                alone(s, layer, kind, tokens, m),
                tokens,
                s.d as int,
                s.ffn as int,
            )
            &&& r.read(Buf::Hidden, 0, ld) == st.read(Buf::Hidden, 0, ld)
            &&& r.caches == st.caches
            &&& r.polls == st.polls
            &&& r.len == st.len
        }),
{
    lemma_spans(s, tokens);
    let (ld, lf) = (tokens * s.d, tokens * s.ffn);
    let joined = Step::SiluMul {
        gate: rows_of(s, Buf::Gate, tokens),
        up: rows_of(s, Buf::Up, tokens),
        output: rows_of(s, Buf::FfnTmp, tokens),
    };
    let steps = closed_by(s, layer, kind, tokens);
    lemma_run_chain(st, seq![joined], steps, a, s);
    lemma_run1(st, joined, a, s);
    let m = a.activated(st.read(Buf::Gate, 0, lf), st.read(Buf::Up, 0, lf));
    let j = st.put(Buf::FfnTmp, 0, lf, m);
    assert(does(st, joined, a, s) == j);
    st.lemma_read_put(Buf::FfnTmp, 0, lf, m, Buf::Hidden, 0, ld);
    assert(first(m, lf) =~= m);
    let down = a.times(
        weight_name(Weight::FfnDown(layer)),
        alone(s, layer, kind, tokens, m),
        tokens,
        s.d as int,
        s.ffn as int,
    );
    assert(first(down, ld) =~= down);
    assert(1 * s.d == s.d && 1 * s.ffn == s.ffn);
    if kind is Single {
        lemma_run1(j, steps[0], a, s);
        assert(steps =~= seq![steps[0]]);
        assert(does(j, steps[0], a, s) == j.put(Buf::QBuf, 0, ld, down));
        j.lemma_read_put(Buf::QBuf, 0, ld, down, Buf::Hidden, 0, ld);
    } else {
        lemma_run2(j, steps[0], steps[1], a, s);
        assert(steps =~= seq![steps[0], steps[1]]);
        let k = does(j, steps[0], a, s);
        assert(k.read(Buf::FfnTmp, 0, lf) =~= m);
        assert(k.read(Buf::Hidden, 0, ld) =~= st.read(Buf::Hidden, 0, ld));
        assert(does(k, steps[1], a, s) == k.put(Buf::QBuf, 0, ld, down));
        k.lemma_read_put(Buf::QBuf, 0, ld, down, Buf::Hidden, 0, ld);
    }
}

/// The feed-forward part and its addition to the state.
proof fn lemma_ffn<E, C>(
    st: PassState<E, C>,
    a: Arithmetic<E, C>,
    s: Shape,
    layer: usize,
    kind: PassKind,
    tokens: int,
)
    requires
        s.fits(tokens),
        0 <= tokens <= usize::MAX,
        kind is Single ==> tokens == 1,
    ensures
        ({
            let r = run(st, ffn_steps(s, layer, kind, tokens), a, s);
            let ld = tokens * s.d;
            let (h1, n2) = (st.read(Buf::Hidden, 0, ld), st.read(Buf::Residual, 0, ld));
            let x = shared(layer, kind, tokens, n2);
            let gate = a.times(weight_name(Weight::FfnGate(layer)), x, tokens, s.ffn as int, s.d as int);
            let up = a.times(weight_name(Weight::FfnUp(layer)), x, tokens, s.ffn as int, s.d as int);
            let down = a.times(
                weight_name(Weight::FfnDown(layer)),
                alone(s, layer, kind, tokens, a.activated(gate, up)),
                tokens,
                s.d as int,
                s.ffn as int,
            );
            &&& r.read(Buf::Hidden, 0, ld) == if kind is Single && s.n_experts > 0 {
                h1
            } else {
                a.added(h1, down)
            }
            &&& r.caches == st.caches
            &&& r.polls == st.polls
            &&& r.len == st.len
            &&& kind is Single && s.n_experts > 0 ==> r.read(Buf::QBuf, 0, ld) == first(
                (a.experts)(layer, n2),
                ld,
            )
        }),
{
    reveal(ffn_steps);
    lemma_spans(s, tokens);
    let ld = tokens * s.d;
    if kind is Single && s.n_experts > 0 {
        assert(1 * s.d == s.d);
        let step = Step::Experts { layer };
        assert(ffn_steps(s, layer, kind, tokens) =~= seq![step]);
        lemma_run1(st, step, a, s);
        let n2 = st.read(Buf::Residual, 0, ld);
        st.lemma_read_put(Buf::QBuf, 0, ld, (a.experts)(layer, n2), Buf::Hidden, 0, ld);
    } else {
        let joined = Step::SiluMul {
            gate: rows_of(s, Buf::Gate, tokens),
            up: rows_of(s, Buf::Up, tokens),
            output: rows_of(s, Buf::FfnTmp, tokens),
        };
        let last = seq![
            Step::Add {
                into: rows_of(s, Buf::Hidden, tokens),
                from: model_rows(s, Buf::QBuf, tokens),
            },
        ];
        let (x, y) = (
            opened(s, layer, kind, tokens),
            seq![joined] + closed_by(s, layer, kind, tokens),
        );
        assert(ffn_steps(s, layer, kind, tokens) =~= x + y + last);
        lemma_run_chain(st, x + y, last, a, s);
        lemma_run_chain(st, x, y, a, s);
        lemma_opened(st, a, s, layer, kind, tokens);
        let s1 = run(st, x, a, s);
        lemma_closed(s1, a, s, layer, kind, tokens);
        lemma_add(run(s1, y, a, s), a, s, tokens);
    }
}

/// A layer of a pass computes what a layer is: attention on the normalised state, its product added to
/// the state, and the feed-forward part of the state normalised again, added too.  Keys and values go
/// to the cache of the layer and to no other, and a pass that can be cancelled asks once.
#[verifier::spinoff_prover]
#[verifier::rlimit(60)]
pub proof fn law_layer_is_computed<E, C>(
    st: PassState<E, C>,
    a: Arithmetic<E, C>,
    s: Shape,
    n: Names,
    layer: usize,
    kind: PassKind,
    tokens: int,
    pos: usize,
    seq_len: usize,
)
    requires
        s.fits(tokens),
        0 <= tokens <= usize::MAX,
        kind is Single ==> tokens == 1,
        layer_part(s, n, layer, kind, tokens, pos, seq_len).ok,
    ensures
        ({
            let r = run(st, layer_part(s, n, layer, kind, tokens, pos, seq_len).steps, a, s);
            let out = layer_out(
                a,
                s,
                n,
                layer,
                kind,
                tokens,
                pos,
                seq_len,
                st.read(Buf::Hidden, 0, tokens * s.d),
                (st.caches)(layer),
            );
            &&& r.read(Buf::Hidden, 0, tokens * s.d) == out.hidden
            &&& (r.caches)(layer) == out.cache
            &&& forall|l: usize| l != layer ==> #[trigger] (r.caches)(l) == (st.caches)(l)
            &&& r.polls == st.polls + if kind is Encode {
                0nat
            } else {
                1
            }
            &&& r.len == st.len
        }),
{
    let (lq, lk, ld) = (tokens * s.nq(), tokens * s.nkv(), tokens * s.d);
    lemma_spans(s, tokens);
    let polled = if kind is Encode {
        going(Seq::empty())
    } else {
        going(seq![Step::CheckCancel])
    };
    let p1 = norm_part(s, n, Weight::AttnNorm(layer), tokens);
    let p2 = going(qkv_steps(s, layer, kind, tokens));
    let p3 = head_norm_part(n, Weight::AttnQNorm(layer), Buf::QHeads, s.n_heads, tokens);
    let p4 = head_norm_part(n, Weight::AttnKNorm(layer), Buf::KHeads, s.n_kv_heads, tokens);
    let p5 = going(attend_steps(s, layer, kind, tokens, pos, seq_len));
    let p6 = norm_part(s, n, Weight::FfnNorm(layer), tokens);
    let p7 = going(ffn_steps(s, layer, kind, tokens));
    let c1 = chain(polled, p1);
    let c2 = chain(c1, p2);
    let c3 = chain(c2, p3);
    let c4 = chain(c3, p4);
    let c5 = chain(c4, p5);
    let c6 = chain(c5, p6);
    assert(layer_part(s, n, layer, kind, tokens, pos, seq_len) == chain(c6, p7));
    assert(c1.ok && c2.ok && c3.ok && c4.ok && c5.ok && c6.ok);
    lemma_run_chain(st, c6.steps, p7.steps, a, s);
    lemma_run_chain(st, c5.steps, p6.steps, a, s);
    lemma_run_chain(st, c4.steps, p5.steps, a, s);
    lemma_run_chain(st, c3.steps, p4.steps, a, s);
    lemma_run_chain(st, c2.steps, p3.steps, a, s);
    lemma_run_chain(st, c1.steps, p2.steps, a, s);
    lemma_run_chain(st, polled.steps, p1.steps, a, s);
    let s0 = run(st, polled.steps, a, s);
    if !(kind is Encode) {
        lemma_run1(st, Step::CheckCancel, a, s);
    }
    assert(s0.read(Buf::Hidden, 0, ld) =~= st.read(Buf::Hidden, 0, ld));
    lemma_norm(s0, a, s, n, Weight::AttnNorm(layer), tokens);
    let s1 = run(s0, p1.steps, a, s);
    lemma_frame(s0, s1, set![Buf::NormTmp, Buf::Residual], Buf::Hidden, 0, ld);
    lemma_qkv(s1, a, s, layer, kind, tokens);
    let s2 = run(s1, p2.steps, a, s);
    lemma_head_norm(s2, a, s, n, Weight::AttnQNorm(layer), Buf::QHeads, s.n_heads, tokens);
    let s3 = run(s2, p3.steps, a, s);
    lemma_frame(s2, s3, set![Buf::QHeads], Buf::Hidden, 0, ld);
    lemma_frame(s2, s3, set![Buf::QHeads], Buf::KHeads, 0, lk);
    lemma_frame(s2, s3, set![Buf::QHeads], Buf::VHeads, 0, lk);
    lemma_head_norm(s3, a, s, n, Weight::AttnKNorm(layer), Buf::KHeads, s.n_kv_heads, tokens);
    let s4 = run(s3, p4.steps, a, s);
    lemma_frame(s3, s4, set![Buf::KHeads], Buf::Hidden, 0, ld);
    lemma_frame(s3, s4, set![Buf::KHeads], Buf::QHeads, 0, lq);
    lemma_frame(s3, s4, set![Buf::KHeads], Buf::VHeads, 0, lk);
    lemma_attend(s4, a, s, layer, kind, tokens, pos, seq_len);
    let s5 = run(s4, p5.steps, a, s);
    lemma_norm(s5, a, s, n, Weight::FfnNorm(layer), tokens);
    let s6 = run(s5, p6.steps, a, s);
    lemma_frame(s5, s6, set![Buf::NormTmp, Buf::Residual], Buf::Hidden, 0, ld);
    lemma_ffn(s6, a, s, layer, kind, tokens);
}

} // verus!
