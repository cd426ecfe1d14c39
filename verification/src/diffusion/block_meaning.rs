//! What the steps of a block do to the buffers.
//!
//! Arithmetic is left open: normalising, multiplying, rotating and attending are any functions.  What
//! is fixed is which values go into each of them and where its result goes.
use vstd::prelude::*;

use crate::diffusion::flux::{has_q2, FluxBuf, FluxStep, Stream};
use crate::diffusion::weights::StoredModel;
use crate::text::decimal;

verus! {

/// The arithmetic of a block, over whatever buffers hold.  Weights go by the names under which they
/// are stored.
#[verifier::reject_recursive_types(V)]
pub struct BlockArithmetic<V> {
    pub zeros: spec_fn(int) -> V,
    /// So many rows, normalised and modulated with two parts of a stream's modulation: the shift and
    /// the scale.
    pub modulate: spec_fn(Stream, V, int, int, int) -> V,
    /// So many rows, multiplied with a weight, to rows of a width.
    pub project: spec_fn(Seq<char>, V, int, int) -> V,
    pub plus: spec_fn(V, V) -> V,
    /// The first so many rows, rotated.
    pub rotate: spec_fn(V, int) -> V,
    /// The rows of one value, then those of another.
    pub join: spec_fn(V, V) -> V,
    /// Queries, attending to so many keys and values.
    pub attend: spec_fn(V, V, V, int) -> V,
    /// Of so many rows of a width, the columns from one on, so many.
    pub columns: spec_fn(V, int, int, int, int) -> V,
    /// The activated gate times the rest.
    pub activate: spec_fn(V, V) -> V,
    /// So many rows, grown by a part of a stream's modulation times one or two values.
    pub residual: spec_fn(Stream, int, V, V, Option<V>, int) -> V,
}

/// What one step does.
pub open spec fn does<V>(
    st: Map<FluxBuf, V>,
    step: FluxStep,
    a: BlockArithmetic<V>,
    idx: int,
) -> Map<FluxBuf, V> {
    match step {
        FluxStep::Zero { to, len } => st.insert(to, (a.zeros)(len as int)),
        FluxStep::Modulate { stream, from, to, rows, shift, scale } => st.insert(
            to,
            (a.modulate)(stream, st[from], rows as int, shift as int, scale as int),
        ),
        FluxStep::Project { weight, from, to, batch, width } => st.insert(
            to,
            (a.project)(weight.full_name(idx), st[from], batch as int, width as int),
        ),
        FluxStep::Accumulate { from, to } => st.insert(to, (a.plus)(st[to], st[from])),
        FluxStep::Rotate { q, k, rows } => st.insert(q, (a.rotate)(st[q], rows as int)).insert(
            k,
            (a.rotate)(st[k], rows as int),
        ),
        FluxStep::Join { first, second, to } => st.insert(to, (a.join)(st[first], st[second])),
        FluxStep::Attend { q, to, k, v, keys } => st.insert(
            to,
            (a.attend)(st[q], st[k], st[v], keys as int),
        ),
        FluxStep::Columns { from, to, rows, width, start, len } => st.insert(
            to,
            (a.columns)(st[from], rows as int, width as int, start as int, len as int),
        ),
        FluxStep::Activate { gate, up } => st.insert(gate, (a.activate)(st[gate], st[up])),
        FluxStep::Residual { stream, part, from, more, to, rows } => st.insert(
            to,
            (a.residual)(
                stream,
                part as int,
                st[to],
                st[from],
                match more {
                    Some(b) => Some(st[b]),
                    None => None,
                },
                rows as int,
            ),
        ),
    }
}

/// What a list of steps does, from front to back.
pub open spec fn run<V>(
    st: Map<FluxBuf, V>,
    steps: Seq<FluxStep>,
    a: BlockArithmetic<V>,
    idx: int,
) -> Map<FluxBuf, V>
    decreases steps.len(),
{
    if steps.len() == 0 {
        st
    } else {
        does(run(st, steps.drop_last(), a, idx), steps.last(), a, idx)
    }
}

pub proof fn lemma_run_push<V>(
    st: Map<FluxBuf, V>,
    steps: Seq<FluxStep>,
    x: FluxStep,
    a: BlockArithmetic<V>,
    idx: int,
)
    ensures
        run(st, steps.push(x), a, idx) == does(run(st, steps, a, idx), x, a, idx),
{
    assert(steps.push(x).drop_last() =~= steps);
}

pub proof fn lemma_run_chain<V>(
    st: Map<FluxBuf, V>,
    x: Seq<FluxStep>,
    y: Seq<FluxStep>,
    a: BlockArithmetic<V>,
    idx: int,
)
    ensures
        run(st, x + y, a, idx) == run(run(st, x, a, idx), y, a, idx),
    decreases y.len(),
{
    if y.len() == 0 {
        assert(x + y =~= x);
    } else {
        lemma_run_chain(st, x, y.drop_last(), a, idx);
        assert((x + y).drop_last() =~= x + y.drop_last());
        assert((x + y).last() == y.last());
    }
}

/// The name of a weight of a double-stream block.
pub open spec fn double_name(idx: int, part: Seq<char>) -> Seq<char> {
    "transformer_blocks."@ + decimal(idx as nat) + part
}

/// The name of a weight of a single-stream block.
pub open spec fn single_name(idx: int, part: Seq<char>) -> Seq<char> {
    "single_transformer_blocks."@ + decimal(idx as nat) + part
}

/// A value multiplied with a weight, or zeros where the model has no such weight.
pub open spec fn through<V>(
    a: BlockArithmetic<V>,
    w: Map<Seq<char>, StoredModel>,
    name: Seq<char>,
    x: V,
    rows: int,
    width: int,
) -> V {
    if has_q2(w, name) {
        (a.project)(name, x, rows, width)
    } else {
        (a.zeros)(rows * width)
    }
}

/// A stream grown by its feed-forward part, as far as the model has the weights: one product that
/// gives gate and rest side by side, the activated gate times the rest, and a product back.
pub open spec fn fed_forward<V>(
    a: BlockArithmetic<V>,
    w: Map<Seq<char>, StoredModel>,
    stream: Stream,
    up: Seq<char>,
    down: Seq<char>,
    x: V,
    rows: int,
    d: int,
) -> V {
    if has_q2(w, up) && has_q2(w, down) {
        let n = (a.modulate)(stream, x, rows, 3, 4);
        let width = w[up]->Q2_rows as int;
        let wide = (a.project)(up, n, rows, width);
        let gate = (a.columns)(wide, rows, width, 0, width / 2);
        let rest = (a.columns)(wide, rows, width, width / 2, width / 2);
        let y = (a.project)(down, (a.activate)(gate, rest), rows, d);
        (a.residual)(stream, 5, x, y, None, rows)
    } else {
        x
    }
}

/// The image and the text that a double-stream block leaves behind.
pub struct Streams<V> {
    pub image: V,
    pub text: V,
}

/// A double-stream block.  Both streams are normalised and projected.  The image attends to text and
/// image, the text to image and text; of every token looked at, key and value stand at the same place.
/// What comes of that is added to the streams, and then their feed-forward parts.
pub open spec fn double_out<V>(
    a: BlockArithmetic<V>,
    w: Map<Seq<char>, StoredModel>,
    idx: int,
    d: int,
    width: int,
    img: int,
    txt: int,
    image: V,
    text: V,
) -> Streams<V> {
    let name = |part: Seq<char>| double_name(idx, part);
    let ni = (a.modulate)(Stream::Image, image, img, 0, 1);
    let nt = (a.modulate)(Stream::Text, text, txt, 0, 1);
    let of_image = |part: Seq<char>| through(a, w, name(part), ni, img, width);
    let of_text = |part: Seq<char>| through(a, w, name(part), nt, txt, width);
    let q = (a.rotate)((a.plus)(of_image(".attn.to_q"@), of_image(".attn.add_q_proj"@)), img);
    let (ki, kt) = ((a.rotate)(of_image(".attn.to_k"@), img), of_text(".attn.to_k"@));
    let (vi, vt) = (of_image(".attn.to_v"@), of_text(".attn.to_v"@));
    let seen_i = (a.attend)(q, (a.join)(kt, ki), (a.join)(vt, vi), img + txt);
    let seen_t = (a.attend)(of_text(".attn.to_q"@), (a.join)(ki, kt), (a.join)(vi, vt), img + txt);
    let image1 = (a.residual)(
        Stream::Image,
        2,
        image,
        through(a, w, name(".attn.to_out.0"@), seen_i, img, d),
        Some(through(a, w, name(".attn.to_add_out"@), seen_i, img, d)),
        img,
    );
    let text1 = (a.residual)(
        Stream::Text,
        2,
        text,
        through(a, w, name(".attn.to_out.0"@), seen_t, txt, d),
        Some(through(a, w, name(".attn.to_add_out"@), seen_t, txt, d)),
        txt,
    );
    Streams {
        image: fed_forward(
            a,
            w,
            Stream::Image,
            name(".ff.linear_in"@),
            name(".ff.linear_out"@),
            image1,
            img,
            d,
        ),
        text: fed_forward(
            a,
            w,
            Stream::Text,
            name(".ff_context.linear_in"@),
            name(".ff_context.linear_out"@),
            text1,
            txt,
            d,
        ),
    }
}

/// A single-stream block.  One product gives queries, keys, values, gate and rest side by side, `n`,
/// `n`, `n`, `f` and `f` columns.  The image's part of queries and keys is rotated; what is attended
/// to and the activated gate times the rest go through one product and are added to the state.
pub open spec fn single_out<V>(
    a: BlockArithmetic<V>,
    w: Map<Seq<char>, StoredModel>,
    idx: int,
    d: int,
    n: int,
    f: int,
    img: int,
    rows: int,
    hidden: V,
) -> V {
    let joint = single_name(idx, ".attn.to_qkv_mlp_proj"@);
    let width = w[joint]->Q2_rows as int;
    let wide = (a.project)(joint, (a.modulate)(Stream::Single, hidden, rows, 0, 1), rows, width);
    let part = |start: int, len: int| (a.columns)(wide, rows, width, start, len);
    let q = (a.rotate)(part(0, n), img);
    let k = (a.rotate)(part(n, n), img);
    let seen = (a.attend)(q, k, part(2 * n, n), rows);
    let fed = (a.activate)(part(3 * n, f), part(3 * n + f, f));
    let out = through(
        a,
        w,
        single_name(idx, ".attn.to_out"@),
        (a.join)(seen, fed),
        rows,
        d,
    );
    (a.residual)(Stream::Single, 2, hidden, out, None, rows)
}

} // verus!
