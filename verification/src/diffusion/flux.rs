//! The image transformer: its dimensions, and what its blocks do in which order.
//!
//! A block is planned as a list of steps over named buffers.  Which steps there are depends on
//! which weights the model has: a projection without a weight gives zeros, and a feed-forward part
//! without its first weight is left out.
use vstd::prelude::*;

use crate::diffusion::weights::{ModelWeights, StoredModel};
use crate::text::{decimal, push_decimal};

verus! {

/// The dimensions of a transformer.  `rope_theta_bits` and `eps_bits` are single-precision bit
/// patterns.
pub struct FluxConfig {
    pub d_model: usize,
    pub n_heads: usize,
    pub head_dim: usize,
    pub ffn_dim: usize,
    pub n_double_layers: usize,
    pub n_single_layers: usize,
    pub joint_dim: usize,
    pub in_channels: usize,
    pub rope_theta_bits: u32,
    pub axes_dims: Vec<usize>,
    pub eps_bits: u32,
}

impl Default for FluxConfig {
    fn default() -> (r: Self)
        ensures
            r.d_model == 3072,
            r.n_heads == 24,
            r.head_dim == 128,
            r.ffn_dim == 9216,
            r.n_double_layers == 5,
            r.n_single_layers == 20,
            r.joint_dim == 7680,
            r.in_channels == 128,
            r.rope_theta_bits == 0x44fa_0000,
            r.axes_dims@ == seq![32usize, 32, 32, 32],
            r.eps_bits == 0x3586_37bd,
    {
        let axes_dims: Vec<usize> = vec![32, 32, 32, 32];
        assert(axes_dims@ =~= seq![32usize, 32, 32, 32]);
        FluxConfig {
            d_model: 3072,
            n_heads: 24,
            head_dim: 128,
            ffn_dim: 9216,
            n_double_layers: 5,
            n_single_layers: 20,
            joint_dim: 7680,
            in_channels: 128,
            rope_theta_bits: 0x44fa_0000,
            axes_dims,
            eps_bits: 0x3586_37bd,
        }
    }
}

/// The latent image of a picture: one point for sixteen by sixteen pixels.
pub fn latent_shape(height: usize, width: usize) -> (r: (usize, usize))
    ensures
        r.0 == height / 16,
        r.1 == width / 16,
{
    (height / 16, width / 16)
}

/// How many rows a forward pass works on.
#[derive(Clone, Copy, Debug, PartialEq, Eq, Structural)]
pub struct ForwardShape {
    /// Rows of the embedded image.
    pub image_rows: usize,
    /// Rows of the embedded text.
    pub text_rows: usize,
    /// Rows of the image in the joined sequence.
    pub seq_img: usize,
    /// Rows of the text in the joined sequence.
    pub seq_txt: usize,
}

/// How many rows a forward pass works on, for an image and a text of given lengths.
pub fn forward_shape(cfg: &FluxConfig, img_len: usize, txt_len: usize) -> (r: ForwardShape)
    requires
        cfg.d_model > 0,
        cfg.joint_dim > 0,
        cfg.in_channels > 0,
    ensures
        r.image_rows == img_len as int / cfg.in_channels as int,
        r.text_rows == txt_len as int / cfg.joint_dim as int,
        r.seq_img == img_len as int / cfg.d_model as int,
        r.seq_txt == txt_len as int / cfg.joint_dim as int,
{
    ForwardShape {
        image_rows: img_len / cfg.in_channels,
        text_rows: txt_len / cfg.joint_dim,
        seq_img: img_len / cfg.d_model,
        seq_txt: txt_len / cfg.joint_dim,
    }
}

/// A quantised weight of a block.
#[derive(Clone, Copy, Debug, PartialEq, Eq, Structural)]
pub enum FluxWeight {
    ToQ,
    ToK,
    ToV,
    AddQ,
    AddK,
    AddV,
    AddOut,
    Out,
    ImageIn,
    ImageOut,
    TextIn,
    TextOut,
    QkvMlp,
    SingleOut,
}

impl FluxWeight {
    /// What the weight's name begins with.
    pub open spec fn stem(self) -> Seq<char> {
        match self {
            FluxWeight::QkvMlp | FluxWeight::SingleOut => "single_transformer_blocks."@,
            _ => "transformer_blocks."@,
        }
    }

    /// What follows the block's number in the weight's name.
    pub open spec fn tail(self) -> Seq<char> {
        match self {
            FluxWeight::ToQ => ".attn.to_q"@,
            FluxWeight::ToK => ".attn.to_k"@,
            FluxWeight::ToV => ".attn.to_v"@,
            FluxWeight::AddQ => ".attn.add_q_proj"@,
            FluxWeight::AddK => ".attn.add_k_proj"@,
            FluxWeight::AddV => ".attn.add_v_proj"@,
            FluxWeight::AddOut => ".attn.to_add_out"@,
            FluxWeight::Out => ".attn.to_out.0"@,
            FluxWeight::ImageIn => ".ff.linear_in"@,
            FluxWeight::ImageOut => ".ff.linear_out"@,
            FluxWeight::TextIn => ".ff_context.linear_in"@,
            FluxWeight::TextOut => ".ff_context.linear_out"@,
            FluxWeight::QkvMlp => ".attn.to_qkv_mlp_proj"@,
            FluxWeight::SingleOut => ".attn.to_out"@,
        }
    }

    /// The weight's name in block `idx`.
    pub open spec fn full_name(self, idx: int) -> Seq<char> {
        self.stem() + decimal(idx as nat) + self.tail()
    }

    /// The weight's name in block `idx`.
    pub fn name(self, idx: usize) -> (r: String)
        ensures
            r@ == self.full_name(idx as int),
    {
        let stem = match self {
            FluxWeight::QkvMlp | FluxWeight::SingleOut => "single_transformer_blocks.",
            _ => "transformer_blocks.",
        };
        let tail = match self {
            FluxWeight::ToQ => ".attn.to_q",
            FluxWeight::ToK => ".attn.to_k",
            FluxWeight::ToV => ".attn.to_v",
            FluxWeight::AddQ => ".attn.add_q_proj",
            FluxWeight::AddK => ".attn.add_k_proj",
            FluxWeight::AddV => ".attn.add_v_proj",
            FluxWeight::AddOut => ".attn.to_add_out",
            FluxWeight::Out => ".attn.to_out.0",
            FluxWeight::ImageIn => ".ff.linear_in",
            FluxWeight::ImageOut => ".ff.linear_out",
            FluxWeight::TextIn => ".ff_context.linear_in",
            FluxWeight::TextOut => ".ff_context.linear_out",
            FluxWeight::QkvMlp => ".attn.to_qkv_mlp_proj",
            FluxWeight::SingleOut => ".attn.to_out",
        };
        let mut s = stem.to_owned();
        push_decimal(&mut s, idx as u64);
        s.append(tail);
        s
    }
}

/// A place for intermediate values.
#[derive(Clone, Copy, Debug, PartialEq, Eq, Structural, Hash)]
pub enum FluxBuf {
    Image,
    Text,
    Hidden,
    ImageNormed,
    TextNormed,
    QImage,
    KImage,
    VImage,
    QText,
    KText,
    VText,
    AddQ,
    AddK,
    AddV,
    Keys,
    Values,
    AttnImage,
    AttnText,
    AddOutImage,
    AddOutText,
    OutImage,
    OutText,
    Wide,
    Gate,
    Up,
    Narrow,
}

/// Which modulation vector a step reads.
#[derive(Clone, Copy, Debug, PartialEq, Eq, Structural)]
pub enum Stream {
    Image,
    Text,
    Single,
}

/// A step of a block.
#[derive(Clone, Copy, Debug, PartialEq, Eq, Structural)]
pub enum FluxStep {
    /// `to` holds `len` zeros.
    Zero { to: FluxBuf, len: usize },
    /// Each of `rows` rows of `from` is normalised, scaled by one plus part `scale` of the
    /// modulation and shifted by part `shift`.
    Modulate { stream: Stream, from: FluxBuf, to: FluxBuf, rows: usize, shift: usize, scale: usize },
    /// `to` holds `batch` rows of `width` values, the weight applied to rows of `from`.
    Project { weight: FluxWeight, from: FluxBuf, to: FluxBuf, batch: usize, width: usize },
    /// `to` grows by `from`, element by element.
    Accumulate { from: FluxBuf, to: FluxBuf },
    /// The first `rows` rows of `q` and `k` are rotated, all by the angles of the origin.
    Rotate { q: FluxBuf, k: FluxBuf, rows: usize },
    /// `to` holds `first`, then `second`.
    Join { first: FluxBuf, second: FluxBuf, to: FluxBuf },
    /// Each row of `q` attends to `keys` rows.
    Attend { q: FluxBuf, to: FluxBuf, k: FluxBuf, v: FluxBuf, keys: usize },
    /// `to` holds columns of `rows` rows of `from`.
    Columns { from: FluxBuf, to: FluxBuf, rows: usize, width: usize, start: usize, len: usize },
    /// `gate` becomes its smooth step times `up`.
    Activate { gate: FluxBuf, up: FluxBuf },
    /// `rows` rows of `to` grow by part `part` of the modulation times the sum of `from` and `more`, if any.
    Residual {
        stream: Stream,
        part: usize,
        from: FluxBuf,
        more: Option<FluxBuf>,
        to: FluxBuf,
        rows: usize,
    },
}

/// The model has a quantised weight of this name.
pub open spec fn has_q2(w: Map<Seq<char>, StoredModel>, name: Seq<char>) -> bool {
    w.contains_key(name) && w[name] is Q2
}

/// The rows of a quantised weight, nothing where there is none.
pub open spec fn q2_rows(w: Map<Seq<char>, StoredModel>, weight: FluxWeight, idx: int) -> Option<
    usize,
> {
    let name = weight.full_name(idx);
    if has_q2(w, name) {
        Some(w[name]->Q2_rows)
    } else {
        None
    }
}

fn find_rows(weights: &ModelWeights, weight: FluxWeight, idx: usize) -> (r: Option<usize>)
    ensures
        r == q2_rows(weights@, weight, idx as int),
{
    let name = weight.name(idx);
    match weights.q2(name.as_str()) {
        Some(t) => Some(t.rows),
        None => None,
    }
}

/// A projection where the model has the weight, zeros of the same size where it has not.
pub open spec fn projected(
    w: Map<Seq<char>, StoredModel>,
    idx: int,
    weight: FluxWeight,
    from: FluxBuf,
    to: FluxBuf,
    batch: int,
    width: int,
) -> Seq<FluxStep> {
    if q2_rows(w, weight, idx) is Some {
        seq![
            FluxStep::Project { weight, from, to, batch: batch as usize, width: width as usize },
        ]
    } else {
        seq![FluxStep::Zero { to, len: (batch * width) as usize }]
    }
}

fn push_projected(
    out: &mut Vec<FluxStep>,
    weights: &ModelWeights,
    idx: usize,
    weight: FluxWeight,
    from: FluxBuf,
    to: FluxBuf,
    batch: usize,
    width: usize,
)
    requires
        batch * width <= usize::MAX,
    ensures
        final(out)@ == old(out)@ + projected(
            weights@,
            idx as int,
            weight,
            from,
            to,
            batch as int,
            width as int,
        ),
{
    match find_rows(weights, weight, idx) {
        Some(_) => {
            out.push(FluxStep::Project { weight, from, to, batch, width });
        },
        None => {
            out.push(FluxStep::Zero { to, len: batch * width });
        },
    }
    assert(out@ =~= old(out)@ + projected(
        weights@,
        idx as int,
        weight,
        from,
        to,
        batch as int,
        width as int,
    ));
}

/// A feed-forward part: a gated projection up, and a projection down that is gated into `to`.
pub open spec fn feed_forward(
    w: Map<Seq<char>, StoredModel>,
    idx: int,
    d: int,
    stream: Stream,
    up: FluxWeight,
    down: FluxWeight,
    to: FluxBuf,
    normed: FluxBuf,
    rows: int,
) -> Seq<FluxStep> {
    let n = rows as usize;
    let first = seq![
        FluxStep::Modulate { stream, from: to, to: normed, rows: n, shift: 3, scale: 4 },
    ];
    match q2_rows(w, up, idx) {
        None => first,
        Some(width) => {
            let half = (width / 2) as usize;
            let middle = seq![
                FluxStep::Project { weight: up, from: normed, to: FluxBuf::Wide, batch: n, width },
                FluxStep::Columns {
                    from: FluxBuf::Wide,
                    to: FluxBuf::Gate,
                    rows: n,
                    width,
                    start: 0,
                    len: half,
                },
                FluxStep::Columns {
                    from: FluxBuf::Wide,
                    to: FluxBuf::Up,
                    rows: n,
                    width,
                    start: half,
                    len: half,
                },
                FluxStep::Activate { gate: FluxBuf::Gate, up: FluxBuf::Up },
            ];
            let last = if q2_rows(w, down, idx) is Some {
                seq![
                    FluxStep::Project {
                        weight: down,
                        from: FluxBuf::Gate,
                        to: FluxBuf::Narrow,
                        batch: n,
                        width: d as usize,
                    },
                    FluxStep::Residual {
                        stream,
                        part: 5,
                        from: FluxBuf::Narrow,
                        more: None,
                        to,
                        rows: n,
                    },
                ]
            } else {
                Seq::empty()
            };
            first + middle + last
        },
    }
}

fn push_feed_forward(
    out: &mut Vec<FluxStep>,
    weights: &ModelWeights,
    idx: usize,
    d: usize,
    stream: Stream,
    up: FluxWeight,
    down: FluxWeight,
    to: FluxBuf,
    normed: FluxBuf,
    rows: usize,
)
    ensures
        final(out)@ == old(out)@ + feed_forward(
            weights@,
            idx as int,
            d as int,
            stream,
            up,
            down,
            to,
            normed,
            rows as int,
        ),
{
    out.push(FluxStep::Modulate { stream, from: to, to: normed, rows, shift: 3, scale: 4 });
    match find_rows(weights, up, idx) {
        None => {},
        Some(width) => {
            let half: usize = width / 2;
            out.push(
                FluxStep::Project {
                    weight: up,
                    from: normed,
                    to: FluxBuf::Wide,
                    batch: rows,
                    width,
                },
            );
            out.push(
                FluxStep::Columns {
                    from: FluxBuf::Wide,
                    to: FluxBuf::Gate,
                    rows,
                    width,
                    start: 0,
                    len: half,
                },
            );
            out.push(
                FluxStep::Columns {
                    from: FluxBuf::Wide,
                    to: FluxBuf::Up,
                    rows,
                    width,
                    start: half,
                    len: half,
                },
            );
            out.push(FluxStep::Activate { gate: FluxBuf::Gate, up: FluxBuf::Up });
            match find_rows(weights, down, idx) {
                None => {},
                Some(_) => {
                    out.push(
                        FluxStep::Project {
                            weight: down,
                            from: FluxBuf::Gate,
                            to: FluxBuf::Narrow,
                            batch: rows,
                            width: d,
                        },
                    );
                    out.push(
                        FluxStep::Residual {
                            stream,
                            part: 5,
                            from: FluxBuf::Narrow,
                            more: None,
                            to,
                            rows,
                        },
                    );
                },
            }
        },
    }
    assert(out@ =~= old(out)@ + feed_forward(
        weights@,
        idx as int,
        d as int,
        stream,
        up,
        down,
        to,
        normed,
        rows as int,
    ));
}

/// The queries, keys and values of a double-stream block.
pub open spec fn double_inputs(
    w: Map<Seq<char>, StoredModel>,
    idx: int,
    width: int,
    img: int,
    txt: int,
) -> Seq<FluxStep> {
    seq![
        FluxStep::Modulate {
            stream: Stream::Image,
            from: FluxBuf::Image,
            to: FluxBuf::ImageNormed,
            rows: img as usize,
            shift: 0,
            scale: 1,
        },
        FluxStep::Modulate {
            stream: Stream::Text,
            from: FluxBuf::Text,
            to: FluxBuf::TextNormed,
            rows: txt as usize,
            shift: 0,
            scale: 1,
        },
    ] + projected(w, idx, FluxWeight::ToQ, FluxBuf::ImageNormed, FluxBuf::QImage, img, width)
        + projected(w, idx, FluxWeight::ToQ, FluxBuf::TextNormed, FluxBuf::QText, txt, width)
        + projected(w, idx, FluxWeight::ToK, FluxBuf::ImageNormed, FluxBuf::KImage, img, width)
        + projected(w, idx, FluxWeight::ToK, FluxBuf::TextNormed, FluxBuf::KText, txt, width)
        + projected(w, idx, FluxWeight::ToV, FluxBuf::ImageNormed, FluxBuf::VImage, img, width)
        + projected(w, idx, FluxWeight::ToV, FluxBuf::TextNormed, FluxBuf::VText, txt, width)
        + projected(w, idx, FluxWeight::AddQ, FluxBuf::ImageNormed, FluxBuf::AddQ, img, width)
        + projected(w, idx, FluxWeight::AddK, FluxBuf::TextNormed, FluxBuf::AddK, txt, width)
        + projected(w, idx, FluxWeight::AddV, FluxBuf::TextNormed, FluxBuf::AddV, txt, width)
}

/// The attention of a double-stream block: the image looks at the text before itself, the text at
/// the image before itself.
pub open spec fn double_attention(img: int, txt: int) -> Seq<FluxStep> {
    let keys = (img + txt) as usize;
    seq![
        FluxStep::Accumulate { from: FluxBuf::AddQ, to: FluxBuf::QImage },
        FluxStep::Rotate { q: FluxBuf::QImage, k: FluxBuf::KImage, rows: img as usize },
        FluxStep::Join { first: FluxBuf::KText, second: FluxBuf::KImage, to: FluxBuf::Keys },
        FluxStep::Join { first: FluxBuf::VText, second: FluxBuf::VImage, to: FluxBuf::Values },
        FluxStep::Attend {
            q: FluxBuf::QImage,
            to: FluxBuf::AttnImage,
            k: FluxBuf::Keys,
            v: FluxBuf::Values,
            keys,
        },
        FluxStep::Join { first: FluxBuf::KImage, second: FluxBuf::KText, to: FluxBuf::Keys },
        FluxStep::Join { first: FluxBuf::VImage, second: FluxBuf::VText, to: FluxBuf::Values },
        FluxStep::Attend {
            q: FluxBuf::QText,
            to: FluxBuf::AttnText,
            k: FluxBuf::Keys,
            v: FluxBuf::Values,
            keys,
        },
    ]
}

/// What a double-stream block makes of its attention.
pub open spec fn double_outputs(
    w: Map<Seq<char>, StoredModel>,
    idx: int,
    d: int,
    img: int,
    txt: int,
) -> Seq<FluxStep> {
    projected(w, idx, FluxWeight::AddOut, FluxBuf::AttnImage, FluxBuf::AddOutImage, img, d)
        + projected(w, idx, FluxWeight::AddOut, FluxBuf::AttnText, FluxBuf::AddOutText, txt, d)
        + projected(w, idx, FluxWeight::Out, FluxBuf::AttnImage, FluxBuf::OutImage, img, d)
        + projected(w, idx, FluxWeight::Out, FluxBuf::AttnText, FluxBuf::OutText, txt, d) + seq![
        FluxStep::Residual {
            stream: Stream::Image,
            part: 2,
            from: FluxBuf::OutImage,
            more: Some(FluxBuf::AddOutImage),
            to: FluxBuf::Image,
            rows: img as usize,
        },
        FluxStep::Residual {
            stream: Stream::Text,
            part: 2,
            from: FluxBuf::OutText,
            more: Some(FluxBuf::AddOutText),
            to: FluxBuf::Text,
            rows: txt as usize,
        },
    ]
}

/// A double-stream block, on `img` rows of image and `txt` rows of text.
pub open spec fn double_block(
    w: Map<Seq<char>, StoredModel>,
    idx: int,
    d: int,
    width: int,
    img: int,
    txt: int,
) -> Seq<FluxStep> {
    double_inputs(w, idx, width, img, txt) + double_attention(img, txt) + double_outputs(
        w,
        idx,
        d,
        img,
        txt,
    ) + feed_forward(
        w,
        idx,
        d,
        Stream::Image,
        FluxWeight::ImageIn,
        FluxWeight::ImageOut,
        FluxBuf::Image,
        FluxBuf::ImageNormed,
        img,
    ) + feed_forward(
        w,
        idx,
        d,
        Stream::Text,
        FluxWeight::TextIn,
        FluxWeight::TextOut,
        FluxBuf::Text,
        FluxBuf::TextNormed,
        txt,
    )
}

/// The dimensions are addressable for this many rows.
pub open spec fn rows_fit(cfg: FluxConfig, rows: int) -> bool {
    &&& rows <= usize::MAX
    &&& cfg.n_heads * cfg.head_dim <= usize::MAX
    &&& rows * (cfg.n_heads * cfg.head_dim) <= usize::MAX
    &&& rows * cfg.d_model <= usize::MAX
}

proof fn lemma_part_fits(part: int, whole: int, width: int)
    requires
        0 <= part <= whole,
        0 <= width,
        whole * width <= usize::MAX,
    ensures
        0 <= part * width <= usize::MAX,
{
    assert(0 <= part * width <= whole * width) by (nonlinear_arith)
        requires
            0 <= part <= whole,
            0 <= width,
    {
    }
}

fn push_double_inputs(
    out: &mut Vec<FluxStep>,
    weights: &ModelWeights,
    idx: usize,
    width: usize,
    img: usize,
    txt: usize,
)
    requires
        img * width <= usize::MAX,
        txt * width <= usize::MAX,
    ensures
        final(out)@ == old(out)@ + double_inputs(
            weights@,
            idx as int,
            width as int,
            img as int,
            txt as int,
        ),
{
    let (ni, nt) = (FluxBuf::ImageNormed, FluxBuf::TextNormed);
    out.push(
        FluxStep::Modulate {
            stream: Stream::Image,
            from: FluxBuf::Image,
            to: ni,
            rows: img,
            shift: 0,
            scale: 1,
        },
    );
    out.push(
        FluxStep::Modulate {
            stream: Stream::Text,
            from: FluxBuf::Text,
            to: nt,
            rows: txt,
            shift: 0,
            scale: 1,
        },
    );
    push_projected(out, weights, idx, FluxWeight::ToQ, ni, FluxBuf::QImage, img, width);
    push_projected(out, weights, idx, FluxWeight::ToQ, nt, FluxBuf::QText, txt, width);
    push_projected(out, weights, idx, FluxWeight::ToK, ni, FluxBuf::KImage, img, width);
    push_projected(out, weights, idx, FluxWeight::ToK, nt, FluxBuf::KText, txt, width);
    push_projected(out, weights, idx, FluxWeight::ToV, ni, FluxBuf::VImage, img, width);
    push_projected(out, weights, idx, FluxWeight::ToV, nt, FluxBuf::VText, txt, width);
    push_projected(out, weights, idx, FluxWeight::AddQ, ni, FluxBuf::AddQ, img, width);
    push_projected(out, weights, idx, FluxWeight::AddK, nt, FluxBuf::AddK, txt, width);
    push_projected(out, weights, idx, FluxWeight::AddV, nt, FluxBuf::AddV, txt, width);
    assert(out@ =~= old(out)@ + double_inputs(
        weights@,
        idx as int,
        width as int,
        img as int,
        txt as int,
    ));
}

fn push_double_attention(out: &mut Vec<FluxStep>, img: usize, txt: usize)
    requires
        img + txt <= usize::MAX,
    ensures
        final(out)@ == old(out)@ + double_attention(img as int, txt as int),
{
    let keys: usize = img + txt;
    out.push(FluxStep::Accumulate { from: FluxBuf::AddQ, to: FluxBuf::QImage });
    out.push(FluxStep::Rotate { q: FluxBuf::QImage, k: FluxBuf::KImage, rows: img });
    out.push(FluxStep::Join { first: FluxBuf::KText, second: FluxBuf::KImage, to: FluxBuf::Keys });
    out.push(FluxStep::Join { first: FluxBuf::VText, second: FluxBuf::VImage, to: FluxBuf::Values });
    out.push(
        FluxStep::Attend {
            q: FluxBuf::QImage,
            to: FluxBuf::AttnImage,
            k: FluxBuf::Keys,
            v: FluxBuf::Values,
            keys,
        },
    );
    out.push(FluxStep::Join { first: FluxBuf::KImage, second: FluxBuf::KText, to: FluxBuf::Keys });
    out.push(FluxStep::Join { first: FluxBuf::VImage, second: FluxBuf::VText, to: FluxBuf::Values });
    out.push(
        FluxStep::Attend {
            q: FluxBuf::QText,
            to: FluxBuf::AttnText,
            k: FluxBuf::Keys,
            v: FluxBuf::Values,
            keys,
        },
    );
    assert(out@ =~= old(out)@ + double_attention(img as int, txt as int));
}

fn push_double_outputs(
    out: &mut Vec<FluxStep>,
    weights: &ModelWeights,
    idx: usize,
    d: usize,
    img: usize,
    txt: usize,
)
    requires
        img * d <= usize::MAX,
        txt * d <= usize::MAX,
    ensures
        final(out)@ == old(out)@ + double_outputs(
            weights@,
            idx as int,
            d as int,
            img as int,
            txt as int,
        ),
{
    let (ai, at) = (FluxBuf::AttnImage, FluxBuf::AttnText);
    push_projected(out, weights, idx, FluxWeight::AddOut, ai, FluxBuf::AddOutImage, img, d);
    push_projected(out, weights, idx, FluxWeight::AddOut, at, FluxBuf::AddOutText, txt, d);
    push_projected(out, weights, idx, FluxWeight::Out, ai, FluxBuf::OutImage, img, d);
    push_projected(out, weights, idx, FluxWeight::Out, at, FluxBuf::OutText, txt, d);
    out.push(
        FluxStep::Residual {
            stream: Stream::Image,
            part: 2,
            from: FluxBuf::OutImage,
            more: Some(FluxBuf::AddOutImage),
            to: FluxBuf::Image,
            rows: img,
        },
    );
    out.push(
        FluxStep::Residual {
            stream: Stream::Text,
            part: 2,
            from: FluxBuf::OutText,
            more: Some(FluxBuf::AddOutText),
            to: FluxBuf::Text,
            rows: txt,
        },
    );
    assert(out@ =~= old(out)@ + double_outputs(
        weights@,
        idx as int,
        d as int,
        img as int,
        txt as int,
    ));
}

/// Plans a double-stream block on `img` rows of image and `txt` rows of text.
pub fn plan_double_block(
    cfg: &FluxConfig,
    weights: &ModelWeights,
    idx: usize,
    img: usize,
    txt: usize,
) -> (r: Vec<FluxStep>)
    requires
        rows_fit(*cfg, img + txt),
    ensures
        r@ == double_block(
            weights@,
            idx as int,
            cfg.d_model as int,
            cfg.n_heads * cfg.head_dim,
            img as int,
            txt as int,
        ),
{
    let d: usize = cfg.d_model;
    let width: usize = cfg.n_heads * cfg.head_dim;
    proof {
        lemma_part_fits(img as int, img + txt, width as int);
        lemma_part_fits(txt as int, img + txt, width as int);
        lemma_part_fits(img as int, img + txt, d as int);
        lemma_part_fits(txt as int, img + txt, d as int);
    }
    let mut out: Vec<FluxStep> = Vec::new();
    push_double_inputs(&mut out, weights, idx, width, img, txt);
    push_double_attention(&mut out, img, txt);
    push_double_outputs(&mut out, weights, idx, d, img, txt);
    push_feed_forward(
        &mut out,
        weights,
        idx,
        d,
        Stream::Image,
        FluxWeight::ImageIn,
        FluxWeight::ImageOut,
        FluxBuf::Image,
        FluxBuf::ImageNormed,
        img,
    );
    push_feed_forward(
        &mut out,
        weights,
        idx,
        d,
        Stream::Text,
        FluxWeight::TextIn,
        FluxWeight::TextOut,
        FluxBuf::Text,
        FluxBuf::TextNormed,
        txt,
    );
    assert(out@ =~= double_block(
        weights@,
        idx as int,
        d as int,
        width as int,
        img as int,
        txt as int,
    ));
    out
}

/// A single-stream block whose joint projection has `rows` rows.
pub open spec fn single_block(
    w: Map<Seq<char>, StoredModel>,
    idx: int,
    d: int,
    n: int,
    f: int,
    rows: usize,
    seq_img: int,
    seq: int,
) -> Seq<FluxStep> {
    let s = seq as usize;
    seq![
        FluxStep::Modulate {
            stream: Stream::Single,
            from: FluxBuf::Hidden,
            to: FluxBuf::ImageNormed,
            rows: s,
            shift: 0,
            scale: 1,
        },
        FluxStep::Project {
            weight: FluxWeight::QkvMlp,
            from: FluxBuf::ImageNormed,
            to: FluxBuf::Wide,
            batch: s,
            width: rows,
        },
        column_part(FluxBuf::QImage, s, rows, 0, n),
        column_part(FluxBuf::KImage, s, rows, n, n),
        column_part(FluxBuf::VImage, s, rows, 2 * n, n),
        column_part(FluxBuf::Gate, s, rows, 3 * n, f),
        column_part(FluxBuf::Up, s, rows, 3 * n + f, f),
        FluxStep::Rotate { q: FluxBuf::QImage, k: FluxBuf::KImage, rows: seq_img as usize },
        FluxStep::Attend {
            q: FluxBuf::QImage,
            to: FluxBuf::AttnImage,
            k: FluxBuf::KImage,
            v: FluxBuf::VImage,
            keys: s,
        },
        FluxStep::Activate { gate: FluxBuf::Gate, up: FluxBuf::Up },
        FluxStep::Join { first: FluxBuf::AttnImage, second: FluxBuf::Gate, to: FluxBuf::Wide },
    ] + projected(w, idx, FluxWeight::SingleOut, FluxBuf::Wide, FluxBuf::Narrow, seq, d) + seq![
        FluxStep::Residual {
            stream: Stream::Single,
            part: 2,
            from: FluxBuf::Narrow,
            more: None,
            to: FluxBuf::Hidden,
            rows: s,
        },
    ]
}

/// A part of the rows of the joint projection.
pub open spec fn column_part(to: FluxBuf, rows: usize, width: usize, start: int, len: int) -> FluxStep {
    FluxStep::Columns {
        from: FluxBuf::Wide,
        to,
        rows,
        width,
        start: start as usize,
        len: len as usize,
    }
}

/// Plans a single-stream block on `seq_img` rows of image and `seq_txt` rows of text.  Without rows
/// there is nothing to do; else there is no plan where the model lacks the joint projection or its
/// rows are too few for all five parts.
pub fn plan_single_block(
    cfg: &FluxConfig,
    weights: &ModelWeights,
    idx: usize,
    seq_img: usize,
    seq_txt: usize,
) -> (r: Option<Vec<FluxStep>>)
    requires
        rows_fit(*cfg, seq_img + seq_txt),
        3 * (cfg.n_heads * cfg.head_dim) + 2 * cfg.ffn_dim <= usize::MAX,
    ensures
        match r {
            Some(steps) => if seq_img + seq_txt == 0 {
                steps@.len() == 0
            } else {
                q2_rows(weights@, FluxWeight::QkvMlp, idx as int) matches Some(rows) && rows >= 3 * (
                cfg.n_heads * cfg.head_dim) + 2 * cfg.ffn_dim && steps@ == single_block(
                    weights@,
                    idx as int,
                    cfg.d_model as int,
                    cfg.n_heads * cfg.head_dim,
                    cfg.ffn_dim as int,
                    rows,
                    seq_img as int,
                    seq_img + seq_txt,
                )
            },
            None => seq_img + seq_txt > 0 && match q2_rows(weights@, FluxWeight::QkvMlp, idx as int) {
                Some(rows) => rows < 3 * (cfg.n_heads * cfg.head_dim) + 2 * cfg.ffn_dim,
                None => true,
            },
        },
{
    let d: usize = cfg.d_model;
    let n: usize = cfg.n_heads * cfg.head_dim;
    let f: usize = cfg.ffn_dim;
    let s: usize = seq_img + seq_txt;
    if s == 0 {
        return Some(Vec::new());
    }
    let width: usize = match find_rows(weights, FluxWeight::QkvMlp, idx) {
        Some(rows) => rows,
        None => return None,
    };
    if width < 3 * n + 2 * f {
        return None;
    }
    let wide = FluxBuf::Wide;
    let mut out: Vec<FluxStep> = Vec::new();
    out.push(
        FluxStep::Modulate {
            stream: Stream::Single,
            from: FluxBuf::Hidden,
            to: FluxBuf::ImageNormed,
            rows: s,
            shift: 0,
            scale: 1,
        },
    );
    out.push(
        FluxStep::Project {
            weight: FluxWeight::QkvMlp,
            from: FluxBuf::ImageNormed,
            to: wide,
            batch: s,
            width,
        },
    );
    out.push(FluxStep::Columns { from: wide, to: FluxBuf::QImage, rows: s, width, start: 0, len: n });
    out.push(FluxStep::Columns { from: wide, to: FluxBuf::KImage, rows: s, width, start: n, len: n });
    out.push(
        FluxStep::Columns { from: wide, to: FluxBuf::VImage, rows: s, width, start: 2 * n, len: n },
    );
    out.push(
        FluxStep::Columns { from: wide, to: FluxBuf::Gate, rows: s, width, start: 3 * n, len: f },
    );
    out.push(
        FluxStep::Columns { from: wide, to: FluxBuf::Up, rows: s, width, start: 3 * n + f, len: f },
    );
    out.push(FluxStep::Rotate { q: FluxBuf::QImage, k: FluxBuf::KImage, rows: seq_img });
    out.push(
        FluxStep::Attend {
            q: FluxBuf::QImage,
            to: FluxBuf::AttnImage,
            k: FluxBuf::KImage,
            v: FluxBuf::VImage,
            keys: s,
        },
    );
    out.push(FluxStep::Activate { gate: FluxBuf::Gate, up: FluxBuf::Up });
    out.push(FluxStep::Join { first: FluxBuf::AttnImage, second: FluxBuf::Gate, to: wide });
    push_projected(
        &mut out,
        weights,
        idx,
        FluxWeight::SingleOut,
        wide,
        FluxBuf::Narrow,
        s,
        d,
    );
    out.push(
        FluxStep::Residual {
            stream: Stream::Single,
            part: 2,
            from: FluxBuf::Narrow,
            more: None,
            to: FluxBuf::Hidden,
            rows: s,
        },
    );
    assert(out@ =~= single_block(
        weights@,
        idx as int,
        d as int,
        n as int,
        f as int,
        width,
        seq_img as int,
        s as int,
    ));
    Some(out)
}

/// Every projection that a step makes has its weight.
pub open spec fn has_weight(w: Map<Seq<char>, StoredModel>, idx: int, step: FluxStep) -> bool {
    match step {
        FluxStep::Project { weight, .. } => has_q2(w, weight.full_name(idx)),
        _ => true,
    }
}

/// A block never projects with a weight that the model lacks.
pub proof fn law_projections_have_weights(
    w: Map<Seq<char>, StoredModel>,
    idx: int,
    d: int,
    width: int,
    img: int,
    txt: int,
    i: int,
)
    requires
        0 <= i < double_block(w, idx, d, width, img, txt).len(),
    ensures
        has_weight(w, idx, double_block(w, idx, d, width, img, txt)[i]),
{
    let a = double_inputs(w, idx, width, img, txt);
    let b = double_attention(img, txt);
    let c = double_outputs(w, idx, d, img, txt);
    assert forall|k: int| 0 <= k < a.len() implies has_weight(w, idx, #[trigger] a[k]) by {}
    assert forall|k: int| 0 <= k < b.len() implies has_weight(w, idx, #[trigger] b[k]) by {}
    assert forall|k: int| 0 <= k < c.len() implies has_weight(w, idx, #[trigger] c[k]) by {}
}

} // verus!
