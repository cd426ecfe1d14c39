//! What holds of every planned pass.
use vstd::prelude::*;

use crate::llm::plan::{
    attend_steps, chain, embed_part, ffn_steps, going, head_norm_part, layer_part, layers_part,
    norm_part, pass_part, qkv_steps, state_steps, tail_part, Names, Part, PassKind, Span, Step,
};
use crate::llm::shape::{Buf, Shape};
use crate::llm::weight::Weight;

verus! {

/// A part of a buffer lies inside it.
pub open spec fn inside(s: Shape, tokens: int, p: Span) -> bool {
    p.start + p.len <= s.need(p.buf, tokens)
}

/// All that a step touches lies inside the buffers of a pass over `tokens` tokens, and the parts
/// that it combines have fitting lengths.
pub open spec fn step_inside(s: Shape, tokens: int, step: Step) -> bool {
    match step {
        Step::Embed { slot, token } => slot < tokens,
        Step::Copy { from, to } => inside(s, tokens, from) && inside(s, tokens, to) && from.len
            == to.len,
        Step::Norm { weight, input, output, rows } => inside(s, tokens, input) && inside(
            s,
            tokens,
            output,
        ) && input.len == output.len && input.len == rows * s.d,
        Step::Quantize { input, rows } => inside(s, tokens, input),
        Step::Qkv { layer, input, q, k, v } => inside(s, tokens, input) && inside(s, tokens, q)
            && inside(s, tokens, k) && inside(s, tokens, v) && input.len == s.d && q.len == s.nq()
            && k.len == s.nkv() && v.len == s.nkv(),
        Step::GateUp { layer, input, gate, up } => inside(s, tokens, input) && inside(
            s,
            tokens,
            gate,
        ) && inside(s, tokens, up) && gate.len == s.ffn && up.len == s.ffn,
        Step::Matmul { weight, layer, input, output, reuse } => inside(s, tokens, input) && inside(
            s,
            tokens,
            output,
        ),
        Step::MatmulBatch { weight, input, output, n_rows, n_cols, tokens: t } => inside(
            s,
            tokens,
            input,
        ) && inside(s, tokens, output) && input.len == t * n_cols && output.len == t * n_rows,
        Step::HeadNorm { weight, buf, heads, tokens: t } => t * (heads * s.head_dim) <= s.need(
            buf,
            tokens,
        ),
        Step::Rope { buf, heads, tokens: t, first_pos } => t * (heads * s.head_dim) <= s.need(
            buf,
            tokens,
        ) && s.rope_dim <= s.head_dim,
        Step::WriteKv { layer, tokens: t, first_pos } => first_pos + t <= s.max_seq && layer
            < s.n_layers,
        Step::Clear { span } => inside(s, tokens, span),
        Step::Attend { layer, seq_len } => seq_len <= s.need(Buf::AttnScores, tokens) && layer
            < s.n_layers,
        Step::AttendBatch { layer, tokens: t } => t <= s.need(Buf::AttnScores, tokens) && layer
            < s.n_layers,
        Step::Add { into, from } => inside(s, tokens, into) && inside(s, tokens, from) && into.len
            == from.len,
        Step::SiluMul { gate, up, output } => inside(s, tokens, gate) && inside(s, tokens, up)
            && inside(s, tokens, output) && gate.len == up.len && gate.len == output.len,
        _ => true,
    }
}

/// All steps of a list stay inside.
pub open spec fn all_inside(s: Shape, tokens: int, steps: Seq<Step>) -> bool {
    forall|i: int| 0 <= i < steps.len() ==> step_inside(s, tokens, #[trigger] steps[i])
}

/// Dimensions that fit together: heads are at least as wide as the model, and no more of a head is
/// rotated than there is.
pub open spec fn consistent(s: Shape) -> bool {
    s.d <= s.nq() && s.rope_dim <= s.head_dim
}

proof fn lemma_all_chain(s: Shape, tokens: int, a: Part, b: Part)
    requires
        all_inside(s, tokens, a.steps),
        all_inside(s, tokens, b.steps),
    ensures
        all_inside(s, tokens, chain(a, b).steps),
{
}

proof fn lemma_sizes(s: Shape, tokens: int)
    requires
        s.fits(tokens),
        consistent(s),
        1 <= tokens <= usize::MAX,
    ensures
        0 <= tokens * s.d <= tokens * s.nq(),
        1 * s.d == s.d && 1 * s.nq() == s.nq() && 1 * s.nkv() == s.nkv() && 1 * s.ffn == s.ffn,
        s.d <= tokens * s.d && s.nq() <= tokens * s.nq() && 0 <= s.nkv() <= tokens * s.nkv()
            && s.ffn <= tokens * s.ffn,
        0 <= (tokens - 1) * s.d && (tokens - 1) * s.d + s.d <= tokens * s.d,
{
    let (d, q, k, f) = (s.d as int, s.nq(), s.nkv(), s.ffn as int);
    assert(0 <= k) by (nonlinear_arith)
        requires
            k == s.n_kv_heads * s.head_dim,
    {
    }
    assert(0 <= tokens * d <= tokens * q && d <= tokens * d && q <= tokens * q && k <= tokens * k
        && f <= tokens * f && 0 <= (tokens - 1) * d && (tokens - 1) * d + d <= tokens * d)
        by (nonlinear_arith)
        requires
            1 <= tokens,
            0 <= d <= q,
            0 <= k,
            0 <= f,
    {
    }
}

proof fn lemma_norm_inside(s: Shape, n: Names, w: Weight, tokens: int)
    requires
        s.fits(tokens),
        consistent(s),
        1 <= tokens <= usize::MAX,
    ensures
        all_inside(s, tokens, norm_part(s, n, w, tokens).steps),
{
    reveal(norm_part);
    lemma_sizes(s, tokens);
}

proof fn lemma_qkv_inside(s: Shape, layer: usize, kind: PassKind, tokens: int)
    requires
        s.fits(tokens),
        consistent(s),
        1 <= tokens <= usize::MAX,
        kind is Single ==> tokens == 1,
    ensures
        all_inside(s, tokens, qkv_steps(s, layer, kind, tokens)),
{
    reveal(qkv_steps);
    lemma_sizes(s, tokens);
}

proof fn lemma_attend_inside(
    s: Shape,
    layer: usize,
    kind: PassKind,
    tokens: int,
    pos: usize,
    seq_len: usize,
)
    requires
        s.fits(tokens),
        consistent(s),
        1 <= tokens <= usize::MAX,
        kind is Single ==> tokens == 1,
        pos + tokens <= s.max_seq,
        seq_len <= s.max_seq,
        layer < s.n_layers,
    ensures
        all_inside(s, tokens, attend_steps(s, layer, kind, tokens, pos, seq_len)),
{
    reveal(attend_steps);
    lemma_sizes(s, tokens);
}

proof fn lemma_ffn_inside(s: Shape, layer: usize, kind: PassKind, tokens: int)
    requires
        s.fits(tokens),
        consistent(s),
        1 <= tokens <= usize::MAX,
        kind is Single ==> tokens == 1,
    ensures
        all_inside(s, tokens, ffn_steps(s, layer, kind, tokens)),
{
    reveal(ffn_steps);
    lemma_sizes(s, tokens);
}

proof fn lemma_head_norm_inside(s: Shape, n: Names, w: Weight, buf: Buf, heads: usize, tokens: int)
    requires
        1 <= tokens <= usize::MAX,
        s.need(buf, tokens) == tokens * (heads * s.head_dim),
    ensures
        all_inside(s, tokens, head_norm_part(n, w, buf, heads, tokens).steps),
{
    reveal(head_norm_part);
}

proof fn lemma_layer_inside(
    s: Shape,
    n: Names,
    layer: usize,
    kind: PassKind,
    tokens: int,
    pos: usize,
    seq_len: usize,
)
    requires
        s.fits(tokens),
        consistent(s),
        1 <= tokens <= usize::MAX,
        kind is Single ==> tokens == 1,
        pos + tokens <= s.max_seq,
        seq_len <= s.max_seq,
        layer < s.n_layers,
    ensures
        all_inside(s, tokens, layer_part(s, n, layer, kind, tokens, pos, seq_len).steps),
{
    let polled = if kind is Encode {
        going(Seq::empty())
    } else {
        going(seq![Step::CheckCancel])
    };
    lemma_norm_inside(s, n, Weight::AttnNorm(layer), tokens);
    lemma_norm_inside(s, n, Weight::FfnNorm(layer), tokens);
    lemma_qkv_inside(s, layer, kind, tokens);
    lemma_head_norm_inside(s, n, Weight::AttnQNorm(layer), Buf::QHeads, s.n_heads, tokens);
    lemma_head_norm_inside(s, n, Weight::AttnKNorm(layer), Buf::KHeads, s.n_kv_heads, tokens);
    lemma_attend_inside(s, layer, kind, tokens, pos, seq_len);
    lemma_ffn_inside(s, layer, kind, tokens);
    let a = chain(polled, norm_part(s, n, Weight::AttnNorm(layer), tokens));
    lemma_all_chain(s, tokens, polled, norm_part(s, n, Weight::AttnNorm(layer), tokens));
    let b = chain(a, going(qkv_steps(s, layer, kind, tokens)));
    lemma_all_chain(s, tokens, a, going(qkv_steps(s, layer, kind, tokens)));
    let q = head_norm_part(n, Weight::AttnQNorm(layer), Buf::QHeads, s.n_heads, tokens);
    let c = chain(b, q);
    lemma_all_chain(s, tokens, b, q);
    let k = head_norm_part(n, Weight::AttnKNorm(layer), Buf::KHeads, s.n_kv_heads, tokens);
    let d = chain(c, k);
    lemma_all_chain(s, tokens, c, k);
    let e = chain(d, going(attend_steps(s, layer, kind, tokens, pos, seq_len)));
    lemma_all_chain(s, tokens, d, going(attend_steps(s, layer, kind, tokens, pos, seq_len)));
    let f = chain(e, norm_part(s, n, Weight::FfnNorm(layer), tokens));
    lemma_all_chain(s, tokens, e, norm_part(s, n, Weight::FfnNorm(layer), tokens));
    lemma_all_chain(s, tokens, f, going(ffn_steps(s, layer, kind, tokens)));
}

proof fn lemma_layers_inside(
    s: Shape,
    n: Names,
    from: usize,
    kind: PassKind,
    tokens: int,
    pos: usize,
    seq_len: usize,
)
    requires
        s.fits(tokens),
        consistent(s),
        1 <= tokens <= usize::MAX,
        kind is Single ==> tokens == 1,
        pos + tokens <= s.max_seq,
        seq_len <= s.max_seq,
    ensures
        all_inside(s, tokens, layers_part(s, n, from, kind, tokens, pos, seq_len).steps),
    decreases s.n_layers - from,
{
    if from < s.n_layers {
        lemma_layer_inside(s, n, from, kind, tokens, pos, seq_len);
        lemma_layers_inside(s, n, (from + 1) as usize, kind, tokens, pos, seq_len);
        lemma_all_chain(
            s,
            tokens,
            layer_part(s, n, from, kind, tokens, pos, seq_len),
            layers_part(s, n, (from + 1) as usize, kind, tokens, pos, seq_len),
        );
    }
}

proof fn lemma_states_inside(s: Shape, tokens: int, upto: int)
    requires
        s.fits(tokens),
        consistent(s),
        0 <= upto <= tokens,
        1 <= tokens <= usize::MAX,
    ensures
        all_inside(s, tokens, state_steps(s, upto)),
    decreases upto,
{
    if upto > 0 {
        lemma_states_inside(s, tokens, upto - 1);
        lemma_sizes(s, tokens);
        let (d, i) = (s.d as int, upto - 1);
        assert(0 <= i * d && i * d + d <= tokens * d) by (nonlinear_arith)
            requires
                0 <= i < tokens,
                0 <= d,
        {
        }
    }
}

proof fn lemma_tail_inside(s: Shape, n: Names, kind: PassKind, tokens: int, head: Weight)
    requires
        s.fits(tokens),
        consistent(s),
        1 <= tokens <= usize::MAX,
    ensures
        all_inside(s, tokens, tail_part(s, n, kind, tokens, head).steps),
{
    lemma_sizes(s, tokens);
    lemma_states_inside(s, tokens, tokens);
}

/// A pass never reaches outside its buffers: every part that a step names lies inside the buffer
/// that the dimensions ask for, keys and values are stored inside the cache, and the parts that a
/// step combines have the same lengths.
pub proof fn law_pass_stays_inside(
    s: Shape,
    n: Names,
    kind: PassKind,
    ids: Seq<u32>,
    pos: usize,
    seq_len: usize,
    head: Weight,
)
    requires
        s.fits(ids.len() as int),
        consistent(s),
        1 <= ids.len() <= usize::MAX,
        kind is Single ==> ids.len() == 1,
        pos + ids.len() <= s.max_seq,
        seq_len <= s.max_seq,
    ensures
        all_inside(
            s,
            ids.len() as int,
            pass_part(s, n, kind, ids, pos, seq_len, head).steps,
        ),
{
    let t = ids.len() as int;
    let opened = if kind is Single {
        going(seq![Step::CheckCancel])
    } else {
        going(Seq::empty())
    };
    let e = embed_part(n, ids);
    let l = layers_part(s, n, 0, kind, t, pos, seq_len);
    lemma_layers_inside(s, n, 0, kind, t, pos, seq_len);
    lemma_tail_inside(s, n, kind, t, head);
    lemma_all_chain(s, t, opened, e);
    lemma_all_chain(s, t, chain(opened, e), l);
    lemma_all_chain(s, t, chain(chain(opened, e), l), tail_part(s, n, kind, t, head));
}

/// Only the last step of a part can be a failure, and it is one exactly where the pass does not go
/// on.
pub open spec fn ends_where_it_fails(p: Part) -> bool {
    &&& forall|i: int| 0 <= i < p.steps.len() - 1 ==> !((#[trigger] p.steps[i]) is Fail)
    &&& p.ok <==> p.steps.len() == 0 || !(p.steps.last() is Fail)
}

proof fn lemma_ends_chain(a: Part, b: Part)
    requires
        ends_where_it_fails(a),
        ends_where_it_fails(b),
    ensures
        ends_where_it_fails(chain(a, b)),
{
    if a.ok {
        let c = chain(a, b);
        assert forall|i: int| 0 <= i < c.steps.len() - 1 implies !((#[trigger] c.steps[i]) is Fail) by {
            if i < a.steps.len() {
                assert(c.steps[i] == a.steps[i]);
                if i == a.steps.len() - 1 {
                    assert(a.steps.last() == a.steps[i]);
                }
            } else {
                assert(c.steps[i] == b.steps[i - a.steps.len()]);
            }
        }
        if b.steps.len() > 0 {
            assert(c.steps.last() == b.steps.last());
        } else if a.steps.len() > 0 {
            assert(c.steps.last() == a.steps.last());
        }
    }
}

proof fn lemma_layer_ends(
    s: Shape,
    n: Names,
    layer: usize,
    kind: PassKind,
    tokens: int,
    pos: usize,
    seq_len: usize,
)
    ensures
        ends_where_it_fails(layer_part(s, n, layer, kind, tokens, pos, seq_len)),
{
    let polled = if kind is Encode {
        going(Seq::empty())
    } else {
        going(seq![Step::CheckCancel])
    };
    let an = norm_part(s, n, Weight::AttnNorm(layer), tokens);
    let fnn = norm_part(s, n, Weight::FfnNorm(layer), tokens);
    let qkv = going(qkv_steps(s, layer, kind, tokens));
    let q = head_norm_part(n, Weight::AttnQNorm(layer), Buf::QHeads, s.n_heads, tokens);
    let k = head_norm_part(n, Weight::AttnKNorm(layer), Buf::KHeads, s.n_kv_heads, tokens);
    let at = going(attend_steps(s, layer, kind, tokens, pos, seq_len));
    let ff = going(ffn_steps(s, layer, kind, tokens));
    assert(ends_where_it_fails(an)) by { reveal(norm_part); }
    assert(ends_where_it_fails(fnn)) by { reveal(norm_part); }
    assert(ends_where_it_fails(qkv)) by { reveal(qkv_steps); }
    assert(ends_where_it_fails(q)) by { reveal(head_norm_part); }
    assert(ends_where_it_fails(k)) by { reveal(head_norm_part); }
    assert(ends_where_it_fails(at)) by { reveal(attend_steps); }
    assert(ends_where_it_fails(ff)) by { reveal(ffn_steps); }
    let a = chain(polled, an);
    lemma_ends_chain(polled, an);
    let b = chain(a, qkv);
    lemma_ends_chain(a, qkv);
    let c = chain(b, q);
    lemma_ends_chain(b, q);
    let d = chain(c, k);
    lemma_ends_chain(c, k);
    let e = chain(d, at);
    lemma_ends_chain(d, at);
    let f = chain(e, fnn);
    lemma_ends_chain(e, fnn);
    lemma_ends_chain(f, ff);
}

proof fn lemma_layers_end(
    s: Shape,
    n: Names,
    from: usize,
    kind: PassKind,
    tokens: int,
    pos: usize,
    seq_len: usize,
)
    ensures
        ends_where_it_fails(layers_part(s, n, from, kind, tokens, pos, seq_len)),
    decreases s.n_layers - from,
{
    if from < s.n_layers {
        lemma_layer_ends(s, n, from, kind, tokens, pos, seq_len);
        lemma_layers_end(s, n, (from + 1) as usize, kind, tokens, pos, seq_len);
        lemma_ends_chain(
            layer_part(s, n, from, kind, tokens, pos, seq_len),
            layers_part(s, n, (from + 1) as usize, kind, tokens, pos, seq_len),
        );
    }
}

proof fn lemma_states_plain(s: Shape, tokens: int)
    ensures
        forall|i: int|
            0 <= i < state_steps(s, tokens).len() ==> !((#[trigger] state_steps(s, tokens)[i])
                is Fail),
    decreases tokens,
{
    if tokens > 0 {
        lemma_states_plain(s, tokens - 1);
    }
}

/// A failure ends a pass: no step follows it, and a pass without one runs to its end.
pub proof fn law_only_the_last_step_fails(
    s: Shape,
    n: Names,
    kind: PassKind,
    ids: Seq<u32>,
    pos: usize,
    seq_len: usize,
    head: Weight,
)
    ensures
        ends_where_it_fails(pass_part(s, n, kind, ids, pos, seq_len, head)),
{
    let t = ids.len() as int;
    let opened = if kind is Single {
        going(seq![Step::CheckCancel])
    } else {
        going(Seq::empty())
    };
    let e = embed_part(n, ids);
    let l = layers_part(s, n, 0, kind, t, pos, seq_len);
    let tail = tail_part(s, n, kind, t, head);
    lemma_layers_end(s, n, 0, kind, t, pos, seq_len);
    lemma_states_plain(s, t);
    assert(ends_where_it_fails(e));
    assert(ends_where_it_fails(tail));
    lemma_ends_chain(opened, e);
    lemma_ends_chain(chain(opened, e), l);
    lemma_ends_chain(chain(chain(opened, e), l), tail);
}

} // verus!
