//! What comes of a whole pass.
use vstd::arithmetic::div_mod::{lemma_fundamental_div_mod_converse};
use vstd::prelude::*;

use crate::llm::pass_laws::{law_layer_is_computed, lemma_run1, lemma_run2, lemma_spans};
use crate::llm::pass_meaning::{
    does, first, layer_out, lemma_run_chain, run, Activation, Arithmetic, PassState,
};
use crate::llm::plan::{
    chain, embed_part, going, head_norm_part, layer_part, layers_part, norm_part, pass_part,
    rows_of, span_of, state_steps, tail_part, Fault, Names, Part, PassKind, Step,
};
use crate::llm::shape::{Buf, Shape};
use crate::llm::weight::{weight_name, Weight};
use crate::text::decimal;

verus! {

/// The hidden state and the caches behind the layers.
#[verifier::reject_recursive_types(E)]
#[verifier::reject_recursive_types(C)]
pub struct LayersOut<E, C> {
    pub hidden: Seq<E>,
    pub caches: spec_fn(usize) -> C,
}

/// Caches with another one for a layer.
pub open spec fn with_cache<C>(caches: spec_fn(usize) -> C, layer: usize, c: C) -> spec_fn(usize) -> C {
    |l: usize|
        if l == layer {
            c
        } else {
            caches(l)
        }
}

/// The layers from `from` on, each on what the one before it left.
pub open spec fn layers_out<E, C>(
    a: Arithmetic<E, C>,
    s: Shape,
    n: Names,
    from: usize,
    kind: PassKind,
    tokens: int,
    pos: usize,
    seq_len: usize,
    h: Seq<E>,
    caches: spec_fn(usize) -> C,
) -> LayersOut<E, C>
    decreases s.n_layers - from,
{
    if from >= s.n_layers {
        LayersOut { hidden: h, caches }
    } else {
        let out = layer_out(a, s, n, from, kind, tokens, pos, seq_len, h, caches(from));
        layers_out(
            a,
            s,
            n,
            (from + 1) as usize,
            kind,
            tokens,
            pos,
            seq_len,
            out.hidden,
            with_cache(caches, from, out.cache),
        )
    }
}

/// The embeddings of the tokens, one row behind the other.
pub open spec fn embedded<E, C>(a: Arithmetic<E, C>, s: Shape, ids: Seq<u32>) -> Seq<E> {
    Seq::new(
        (ids.len() * s.d) as nat,
        |i: int| (a.embed)(ids[i / s.d as int])[i % s.d as int],
    )
}

/// Row `i` of the hidden state.
pub open spec fn row_of<E>(s: Shape, h: Seq<E>, i: int) -> Seq<E> {
    Seq::new(s.d as nat, |k: int| h[i * s.d + k])
}

proof fn lemma_layers<E, C>(
    st: PassState<E, C>,
    a: Arithmetic<E, C>,
    s: Shape,
    n: Names,
    from: usize,
    kind: PassKind,
    tokens: int,
    pos: usize,
    seq_len: usize,
    caches: spec_fn(usize) -> C,
)
    requires
        s.fits(tokens),
        0 <= tokens <= usize::MAX,
        kind is Single ==> tokens == 1,
        layers_part(s, n, from, kind, tokens, pos, seq_len).ok,
        forall|l: usize| #[trigger] (st.caches)(l) == caches(l),
    ensures
        ({
            let r = run(st, layers_part(s, n, from, kind, tokens, pos, seq_len).steps, a, s);
            let h = st.read(Buf::Hidden, 0, tokens * s.d);
            let out = layers_out(a, s, n, from, kind, tokens, pos, seq_len, h, caches);
            &&& r.read(Buf::Hidden, 0, tokens * s.d) == out.hidden
            &&& forall|l: usize| #[trigger] (r.caches)(l) == (out.caches)(l)
            &&& r.polls == st.polls + if kind is Encode || from >= s.n_layers {
                0
            } else {
                s.n_layers - from
            }
            &&& r.len == st.len
        }),
    decreases s.n_layers - from,
{
    if from < s.n_layers {
        let p = layer_part(s, n, from, kind, tokens, pos, seq_len);
        let q = layers_part(s, n, (from + 1) as usize, kind, tokens, pos, seq_len);
        lemma_run_chain(st, p.steps, q.steps, a, s);
        law_layer_is_computed(st, a, s, n, from, kind, tokens, pos, seq_len);
        let mid = run(st, p.steps, a, s);
        let h = st.read(Buf::Hidden, 0, tokens * s.d);
        let out = layer_out(a, s, n, from, kind, tokens, pos, seq_len, h, caches(from));
        let next = with_cache(caches, from, out.cache);
        assert((st.caches)(from) == caches(from));
        lemma_layers(mid, a, s, n, (from + 1) as usize, kind, tokens, pos, seq_len, next);
    }
}

proof fn lemma_embed<E, C>(
    st: PassState<E, C>,
    a: Arithmetic<E, C>,
    s: Shape,
    ids: Seq<u32>,
    k: int,
)
    requires
        0 <= k <= ids.len() <= usize::MAX,
    ensures
        ({
            let steps = Seq::new(
                ids.len(),
                |i: int| Step::Embed { slot: i as usize, token: ids[i] },
            );
            let r = run(st, steps.take(k), a, s);
            &&& forall|i: int|
                0 <= i < k * s.d ==> #[trigger] (r.bufs)(Buf::Hidden, i) == (a.embed)(
                    ids[i / s.d as int],
                )[i % s.d as int]
            &&& r.caches == st.caches
            &&& r.polls == st.polls
            &&& r.len == st.len
        }),
    decreases k,
{
    let steps = Seq::new(ids.len(), |i: int| Step::Embed { slot: i as usize, token: ids[i] });
    let d = s.d as int;
    if k > 0 {
        lemma_embed(st, a, s, ids, k - 1);
        let before = run(st, steps.take(k - 1), a, s);
        let r = run(st, steps.take(k), a, s);
        assert(steps.take(k).drop_last() =~= steps.take(k - 1));
        assert(steps.take(k).last() == steps[k - 1]);
        assert(k * d == (k - 1) * d + d) by (nonlinear_arith);
        assert forall|i: int| 0 <= i < k * d implies #[trigger] (r.bufs)(Buf::Hidden, i) == (
        a.embed)(ids[i / d])[i % d] by {
            if i >= (k - 1) * d {
                lemma_fundamental_div_mod_converse(i, d, k - 1, i - (k - 1) * d);
            } else {
                assert((r.bufs)(Buf::Hidden, i) == (before.bufs)(Buf::Hidden, i));
            }
        }
    } else {
        assert(steps.take(0).len() == 0);
        assert(0 * d == 0);
    }
}

/// What a product of the head sees.
pub open spec fn head_activation<E>(s: Shape, kind: PassKind, x: Seq<E>) -> Activation<E> {
    Activation {
        values: x,
        quantised: if kind is Single && s.d >= 2560 {
            Some((1int, x))
        } else {
            None
        },
        layer: Some(s.n_layers),
    }
}

/// The scores out of a row of the hidden state.
proof fn lemma_scores<E, C>(
    st: PassState<E, C>,
    a: Arithmetic<E, C>,
    s: Shape,
    kind: PassKind,
    i: int,
    tokens: int,
    head: Weight,
)
    requires
        s.fits(tokens),
        0 <= i < tokens,
    ensures
        ({
            let steps = seq![
                Step::Copy {
                    from: span_of(Buf::Hidden, i * s.d, s.d as int),
                    to: rows_of(s, Buf::NormTmp, 1),
                },
            ] + seq![
                Step::Norm {
                    weight: Weight::OutputNorm,
                    input: rows_of(s, Buf::NormTmp, 1),
                    output: rows_of(s, Buf::Residual, 1),
                    rows: 1,
                },
                Step::Matmul {
                    weight: head,
                    layer: s.n_layers,
                    input: rows_of(s, Buf::Residual, 1),
                    output: span_of(Buf::Logits, 0, s.vocab as int),
                    reuse: kind is Single && s.d >= 2560,
                },
            ];
            let r = run(st, steps, a, s);
            let x = st.read(Buf::Hidden, i * s.d, s.d as int);
            &&& r.read(Buf::Logits, 0, s.vocab as int) == a.times(
                weight_name(head),
                head_activation(s, kind, a.normed("output_norm.weight"@, x, 1)),
                1,
                s.vocab as int,
                s.d as int,
            )
            &&& r.caches == st.caches
            &&& r.polls == st.polls
            &&& r.len == st.len
        }),
{
    let d = s.d as int;
    assert(0 <= i * d <= tokens * d) by (nonlinear_arith)
        requires
            0 <= i < tokens,
            0 <= d,
    {
    }
    assert(1 * d == d && 1 * s.nq() == s.nq() && 1 * s.nkv() == s.nkv() && 1 * s.ffn == s.ffn);
    lemma_spans(s, 1);
    let copy = Step::Copy { from: span_of(Buf::Hidden, i * d, d), to: rows_of(s, Buf::NormTmp, 1) };
    let norm = Step::Norm {
        weight: Weight::OutputNorm,
        input: rows_of(s, Buf::NormTmp, 1),
        output: rows_of(s, Buf::Residual, 1),
        rows: 1,
    };
    let product = Step::Matmul {
        weight: head,
        layer: s.n_layers,
        input: rows_of(s, Buf::Residual, 1),
        output: span_of(Buf::Logits, 0, s.vocab as int),
        reuse: kind is Single && s.d >= 2560,
    };
    lemma_run_chain(st, seq![copy], seq![norm, product], a, s);
    lemma_run1(st, copy, a, s);
    let x = st.read(Buf::Hidden, i * d, d);
    let s1 = st.put(Buf::NormTmp, 0, d, x);
    assert(does(st, copy, a, s) == s1);
    st.lemma_read_put(Buf::NormTmp, 0, d, x, Buf::Hidden, 0, 0);
    assert(first(x, d) =~= x);
    lemma_run2(s1, norm, product, a, s);
    let y = a.normed("output_norm.weight"@, x, 1);
    let s2 = s1.put(Buf::Residual, 0, d, y);
    assert(does(s1, norm, a, s) == s2);
    s1.lemma_read_put(Buf::Residual, 0, d, y, Buf::Hidden, 0, 0);
    assert(first(y, d) =~= y);
    let z = a.times(weight_name(head), head_activation(s, kind, y), 1, s.vocab as int, d);
    assert(does(s2, product, a, s) == s2.put(Buf::Logits, 0, s.vocab as int, z));
    s2.lemma_read_put(Buf::Logits, 0, s.vocab as int, z, Buf::Hidden, 0, 0);
    assert(first(z, s.vocab as int) =~= z);
}

/// The states of an encoding pass.
proof fn lemma_states<E, C>(
    st: PassState<E, C>,
    a: Arithmetic<E, C>,
    s: Shape,
    tokens: int,
    k: int,
)
    requires
        s.fits(tokens),
        0 <= k <= tokens,
    ensures
        ({
            let r = run(st, state_steps(s, k), a, s);
            &&& forall|i: int|
                0 <= i < k ==> #[trigger] r.read(Buf::States, i * s.d, s.d as int) == a.normed(
                    "output_norm.weight"@,
                    st.read(Buf::Hidden, i * s.d, s.d as int),
                    1,
                )
            &&& forall|i: int| #[trigger] (r.bufs)(Buf::Hidden, i) == (st.bufs)(Buf::Hidden, i)
            &&& r.caches == st.caches
            &&& r.polls == st.polls
            &&& r.len == st.len
        }),
    decreases k,
{
    if k > 0 {
        let d = s.d as int;
        let i = k - 1;
        assert(0 <= i * d && i * d + d <= tokens * d) by (nonlinear_arith)
            requires
                0 <= i < tokens,
                0 <= d,
        {
        }
        assert(1 * d == d && 1 * s.nq() == s.nq() && 1 * s.nkv() == s.nkv() && 1 * s.ffn == s.ffn);
        lemma_spans(s, 1);
        lemma_states(st, a, s, tokens, i);
        let m = run(st, state_steps(s, i), a, s);
        let copy = Step::Copy {
            from: span_of(Buf::Hidden, i * d, d),
            to: rows_of(s, Buf::NormTmp, 1),
        };
        let norm = Step::Norm {
            weight: Weight::OutputNorm,
            input: rows_of(s, Buf::NormTmp, 1),
            output: span_of(Buf::States, i * d, d),
            rows: 1,
        };
        lemma_run_chain(st, state_steps(s, i), seq![copy, norm], a, s);
        lemma_run2(m, copy, norm, a, s);
        let x = m.read(Buf::Hidden, i * d, d);
        assert(x =~= st.read(Buf::Hidden, i * d, d));
        let s1 = m.put(Buf::NormTmp, 0, d, x);
        assert(does(m, copy, a, s) == s1);
        m.lemma_read_put(Buf::NormTmp, 0, d, x, Buf::Hidden, 0, 0);
        assert(first(x, d) =~= x);
        let y = a.normed("output_norm.weight"@, x, 1);
        let r = s1.put(Buf::States, i * d, d, y);
        assert(does(s1, norm, a, s) == r);
        s1.lemma_read_put(Buf::States, i * d, d, y, Buf::Hidden, 0, 0);
        assert(first(y, d) =~= y);
        assert forall|j: int| 0 <= j < k implies #[trigger] r.read(Buf::States, j * d, d) == a.normed(
            "output_norm.weight"@,
            st.read(Buf::Hidden, j * d, d),
            1,
        ) by {
            if j < i {
                assert(j * d + d <= i * d) by (nonlinear_arith)
                    requires
                        j + 1 <= i,
                        0 <= d,
                {
                }
                assert(r.read(Buf::States, j * d, d) =~= m.read(Buf::States, j * d, d));
            }
        }
    }
}

/// A pass computes what a pass is: the embeddings of the tokens go through all layers, one after the
/// other.  The last row of the state, normalised, gives the scores; an encoding pass gives all rows,
/// normalised, and their average.
pub proof fn law_pass_is_computed<E, C>(
    st: PassState<E, C>,
    a: Arithmetic<E, C>,
    s: Shape,
    n: Names,
    kind: PassKind,
    ids: Seq<u32>,
    pos: usize,
    seq_len: usize,
    head: Weight,
)
    requires
        s.fits(ids.len() as int),
        1 <= ids.len() <= usize::MAX,
        kind is Single ==> ids.len() == 1,
        pass_part(s, n, kind, ids, pos, seq_len, head).ok,
    ensures
        ({
            let tokens = ids.len() as int;
            let r = run(st, pass_part(s, n, kind, ids, pos, seq_len, head).steps, a, s);
            let out = layers_out(
                a,
                s,
                n,
                0,
                kind,
                tokens,
                pos,
                seq_len,
                embedded(a, s, ids),
                st.caches,
            );
            let last = row_of(s, out.hidden, tokens - 1);
            &&& forall|l: usize| #[trigger] (r.caches)(l) == (out.caches)(l)
            &&& !(kind is Encode) ==> r.read(Buf::Logits, 0, s.vocab as int) == a.times(
                weight_name(head),
                head_activation(s, kind, a.normed("output_norm.weight"@, last, 1)),
                1,
                s.vocab as int,
                s.d as int,
            )
            &&& kind is Encode ==> forall|i: int|
                0 <= i < tokens ==> #[trigger] r.read(Buf::States, i * s.d, s.d as int) == a.normed(
                    "output_norm.weight"@,
                    row_of(s, out.hidden, i),
                    1,
                )
            &&& kind is Encode ==> r.read(Buf::Pooled, 0, s.d as int) == first(
                (a.average)(r.read(Buf::States, 0, tokens * s.d), tokens),
                s.d as int,
            )
            &&& r.len == if kind is Batch {
                Some(tokens)
            } else {
                st.len
            }
            &&& r.polls == st.polls + match kind {
                PassKind::Single => s.n_layers + 1,
                PassKind::Batch => s.n_layers as int,
                PassKind::Encode => 0,
            }
        }),
{
    let tokens = ids.len() as int;
    let (d, ld) = (s.d as int, tokens * s.d);
    lemma_spans(s, tokens);
    let opened = if kind is Single {
        going(seq![Step::CheckCancel])
    } else {
        going(Seq::empty())
    };
    let p1 = embed_part(n, ids);
    let p2 = layers_part(s, n, 0, kind, tokens, pos, seq_len);
    let p3 = tail_part(s, n, kind, tokens, head);
    let c1 = chain(opened, p1);
    let c2 = chain(c1, p2);
    assert(c1.ok && c2.ok && p1.ok && p2.ok && p3.ok);
    lemma_run_chain(st, c2.steps, p3.steps, a, s);
    lemma_run_chain(st, c1.steps, p2.steps, a, s);
    lemma_run_chain(st, opened.steps, p1.steps, a, s);
    let s0 = run(st, opened.steps, a, s);
    if kind is Single {
        lemma_run1(st, Step::CheckCancel, a, s);
    }
    lemma_embed(s0, a, s, ids, tokens);
    assert(p1.steps.take(tokens) =~= p1.steps);
    let s1 = run(s0, p1.steps, a, s);
    assert(s1.read(Buf::Hidden, 0, ld) =~= embedded(a, s, ids));
    lemma_layers(s1, a, s, n, 0, kind, tokens, pos, seq_len, st.caches);
    let s2 = run(s1, p2.steps, a, s);
    let hidden = s2.read(Buf::Hidden, 0, ld);
    assert forall|i: int| 0 <= i < tokens implies #[trigger] s2.read(Buf::Hidden, i * d, d) == row_of(
        s,
        hidden,
        i,
    ) by {
        assert(0 <= i * d && i * d + d <= tokens * d) by (nonlinear_arith)
            requires
                0 <= i < tokens,
                0 <= d,
        {
        }
        assert(s2.read(Buf::Hidden, i * d, d) =~= row_of(s, hidden, i));
    }
    lemma_tail(s2, a, s, n, kind, tokens, head, hidden);
}

/// What follows the layers.
#[verifier::spinoff_prover]
#[verifier::rlimit(60)]
proof fn lemma_tail<E, C>(
    st: PassState<E, C>,
    a: Arithmetic<E, C>,
    s: Shape,
    n: Names,
    kind: PassKind,
    tokens: int,
    head: Weight,
    hidden: Seq<E>,
)
    requires
        s.fits(tokens),
        1 <= tokens <= usize::MAX,
        tail_part(s, n, kind, tokens, head).ok,
        forall|i: int|
            0 <= i < tokens ==> #[trigger] st.read(Buf::Hidden, i * s.d, s.d as int) == row_of(
                s,
                hidden,
                i,
            ),
    ensures
        ({
            let r = run(st, tail_part(s, n, kind, tokens, head).steps, a, s);
            let last = row_of(s, hidden, tokens - 1);
            &&& r.caches == st.caches
            &&& !(kind is Encode) ==> r.read(Buf::Logits, 0, s.vocab as int) == a.times(
                weight_name(head),
                head_activation(s, kind, a.normed("output_norm.weight"@, last, 1)),
                1,
                s.vocab as int,
                s.d as int,
            )
            &&& kind is Encode ==> forall|i: int|
                0 <= i < tokens ==> #[trigger] r.read(Buf::States, i * s.d, s.d as int) == a.normed(
                    "output_norm.weight"@,
                    row_of(s, hidden, i),
                    1,
                )
            &&& kind is Encode ==> r.read(Buf::Pooled, 0, s.d as int) == first(
                (a.average)(r.read(Buf::States, 0, tokens * s.d), tokens),
                s.d as int,
            )
            &&& r.len == if kind is Batch {
                Some(tokens)
            } else {
                st.len
            }
            &&& r.polls == st.polls
        }),
{
    let (d, ld, i) = (s.d as int, tokens * s.d, tokens - 1);
    let steps = tail_part(s, n, kind, tokens, head).steps;
    assert(st.read(Buf::Hidden, i * d, d) == row_of(s, hidden, i));
    let copy = Step::Copy { from: span_of(Buf::Hidden, i * d, d), to: rows_of(s, Buf::NormTmp, 1) };
    let scored = seq![
        Step::Norm {
            weight: Weight::OutputNorm,
            input: rows_of(s, Buf::NormTmp, 1),
            output: rows_of(s, Buf::Residual, 1),
            rows: 1,
        },
        Step::Matmul {
            weight: head,
            layer: s.n_layers,
            input: rows_of(s, Buf::Residual, 1),
            output: span_of(Buf::Logits, 0, s.vocab as int),
            reuse: kind is Single && s.d >= 2560,
        },
    ];
    match kind {
        PassKind::Single => {
            assert(steps =~= seq![copy] + scored);
            lemma_scores(st, a, s, kind, i, tokens, head);
        },
        PassKind::Batch => {
            let set = Step::SetLen { len: tokens as usize };
            let s1 = does(st, set, a, s);
            assert(steps =~= seq![set] + (seq![copy] + scored));
            lemma_run_chain(st, seq![set], seq![copy] + scored, a, s);
            lemma_run1(st, set, a, s);
            lemma_scores(s1, a, s, kind, i, tokens, head);
            assert(s1.read(Buf::Hidden, i * d, d) =~= st.read(Buf::Hidden, i * d, d));
        },
        PassKind::Encode => {
            lemma_spans(s, tokens);
            let avg = Step::Average { tokens: tokens as usize };
            assert(steps =~= state_steps(s, tokens) + seq![avg]);
            lemma_run_chain(st, state_steps(s, tokens), seq![avg], a, s);
            lemma_states(st, a, s, tokens, tokens);
            let s1 = run(st, state_steps(s, tokens), a, s);
            lemma_run1(s1, avg, a, s);
            let mean = (a.average)(s1.read(Buf::States, 0, ld), tokens);
            let r = s1.put(Buf::Pooled, 0, d, mean);
            assert(does(s1, avg, a, s) == r);
            s1.lemma_read_put(Buf::Pooled, 0, d, mean, Buf::States, 0, ld);
            assert forall|j: int| 0 <= j < tokens implies #[trigger] r.read(Buf::States, j * d, d)
                == a.normed("output_norm.weight"@, row_of(s, hidden, j), 1) by {
                assert(r.read(Buf::States, j * d, d) =~= s1.read(Buf::States, j * d, d));
                assert(st.read(Buf::Hidden, j * d, d) == row_of(s, hidden, j));
            }
        },
    }
}

/// A pass has what it needs: the embedding and every normalisation weight; weights for heads only
/// where the model has such weights.
pub open spec fn complete(s: Shape, n: Names) -> bool {
    &&& n.tensors.contains("token_embd.weight"@)
    &&& n.norms.contains("output_norm.weight"@)
    &&& forall|l: usize| l < s.n_layers ==> #[trigger] layer_complete(n, l)
}

pub open spec fn layer_complete(n: Names, l: usize) -> bool {
    let blk = "blk."@ + decimal(l as nat);
    &&& n.norms.contains(blk + ".attn_norm.weight"@)
    &&& n.norms.contains(blk + ".ffn_norm.weight"@)
    &&& n.tensors.contains(blk + ".attn_q_norm.weight"@) ==> n.norms.contains(
        blk + ".attn_q_norm.weight"@,
    )
    &&& n.tensors.contains(blk + ".attn_k_norm.weight"@) ==> n.norms.contains(
        blk + ".attn_k_norm.weight"@,
    )
}

/// A pass goes through exactly where nothing that it needs is missing.
pub proof fn law_complete_passes_go_through(
    s: Shape,
    n: Names,
    kind: PassKind,
    ids: Seq<u32>,
    pos: usize,
    seq_len: usize,
    head: Weight,
)
    requires
        ids.len() >= 1,
    ensures
        pass_part(s, n, kind, ids, pos, seq_len, head).ok <==> complete(s, n),
{
    lemma_layers_ok(s, n, 0, kind, ids.len() as int, pos, seq_len);
}

proof fn lemma_layers_ok(
    s: Shape,
    n: Names,
    from: usize,
    kind: PassKind,
    tokens: int,
    pos: usize,
    seq_len: usize,
)
    ensures
        layers_part(s, n, from, kind, tokens, pos, seq_len).ok <==> (forall|l: usize|
            from <= l < s.n_layers ==> #[trigger] layer_complete(n, l)),
    decreases s.n_layers - from,
{
    if from < s.n_layers {
        lemma_layers_ok(s, n, (from + 1) as usize, kind, tokens, pos, seq_len);
        reveal(norm_part);
        reveal(head_norm_part);
        assert(layer_part(s, n, from, kind, tokens, pos, seq_len).ok <==> layer_complete(n, from));
        if layers_part(s, n, from, kind, tokens, pos, seq_len).ok {
            assert forall|l: usize| from <= l < s.n_layers implies #[trigger] layer_complete(n, l) by {
                if l > from {
                    assert((from + 1) as usize <= l);
                }
            }
        }
    }
}

/// What a failure says is missing is missing.
pub open spec fn honest(n: Names, ids: Seq<u32>, f: Fault) -> bool {
    match f {
        Fault::MissingEmbedding => !n.tensors.contains("token_embd.weight"@),
        Fault::MissingNorm(w) => !n.norms.contains(weight_name(w)),
        Fault::NoTokens => ids.len() == 0,
    }
}

/// Where steps do not go on, the last of them fails, honestly.
spec fn fails_honestly(n: Names, ids: Seq<u32>, p: Part) -> bool {
    !p.ok ==> p.steps.len() > 0 && (p.steps.last() matches Step::Fail(f) && honest(n, ids, f))
}

/// A pass that does not go through ends with a failure that names what is missing.
pub proof fn law_failures_name_what_is_missing(
    s: Shape,
    n: Names,
    kind: PassKind,
    ids: Seq<u32>,
    pos: usize,
    seq_len: usize,
    head: Weight,
)
    ensures
        ({
            let p = pass_part(s, n, kind, ids, pos, seq_len, head);
            !p.ok ==> p.steps.len() > 0 && (p.steps.last() matches Step::Fail(f) && honest(
                n,
                ids,
                f,
            ))
        }),
{
    let t = ids.len() as int;
    lemma_layers_honest(s, n, ids, 0, kind, t, pos, seq_len);
}

proof fn lemma_layers_honest(
    s: Shape,
    n: Names,
    ids: Seq<u32>,
    from: usize,
    kind: PassKind,
    tokens: int,
    pos: usize,
    seq_len: usize,
)
    ensures
        fails_honestly(n, ids, layers_part(s, n, from, kind, tokens, pos, seq_len)),
    decreases s.n_layers - from,
{
    if from < s.n_layers {
        lemma_layers_honest(s, n, ids, (from + 1) as usize, kind, tokens, pos, seq_len);
        reveal(norm_part);
        reveal(head_norm_part);
        assert(fails_honestly(n, ids, layer_part(s, n, from, kind, tokens, pos, seq_len)));
    }
}

} // verus!
