//! The weights of a model, by their role.
use vstd::prelude::*;

use crate::text::{
    chars_of, concat3, decimal, decimal_string, ends_with_str, has_suffix, lemma_numeral_ends,
    push_decimal, same_str,
};

verus! {

/// A weight tensor, by its role; the first number is a layer, the second an expert.
#[derive(Debug, Clone, Copy, PartialEq, Eq, Structural)]
pub enum Weight {
    TokenEmbd,
    OutputNorm,
    Output,
    AttnNorm(usize),
    AttnQ(usize),
    AttnK(usize),
    AttnV(usize),
    AttnQNorm(usize),
    AttnKNorm(usize),
    AttnOutput(usize),
    FfnNorm(usize),
    FfnGate(usize),
    FfnUp(usize),
    FfnDown(usize),
    GateInp(usize),
    GateExpert(usize, usize),
    UpExpert(usize, usize),
    DownExpert(usize, usize),
}

/// The name of a tensor of a layer.
pub open spec fn layer_name(layer: usize, part: Seq<char>) -> Seq<char> {
    "blk."@ + decimal(layer as nat) + part
}

/// The name of a tensor of an expert.
pub open spec fn expert_name(layer: usize, part: Seq<char>, expert: usize) -> Seq<char> {
    layer_name(layer, part) + decimal(expert as nat) + ".weight"@
}

/// The name under which a weight is stored.
pub open spec fn weight_name(w: Weight) -> Seq<char> {
    match w {
        Weight::TokenEmbd => "token_embd.weight"@,
        Weight::OutputNorm => "output_norm.weight"@,
        Weight::Output => "output.weight"@,
        Weight::AttnNorm(i) => layer_name(i, ".attn_norm.weight"@),
        Weight::AttnQ(i) => layer_name(i, ".attn_q.weight"@),
        Weight::AttnK(i) => layer_name(i, ".attn_k.weight"@),
        Weight::AttnV(i) => layer_name(i, ".attn_v.weight"@),
        Weight::AttnQNorm(i) => layer_name(i, ".attn_q_norm.weight"@),
        Weight::AttnKNorm(i) => layer_name(i, ".attn_k_norm.weight"@),
        Weight::AttnOutput(i) => layer_name(i, ".attn_output.weight"@),
        Weight::FfnNorm(i) => layer_name(i, ".ffn_norm.weight"@),
        Weight::FfnGate(i) => layer_name(i, ".ffn_gate.weight"@),
        Weight::FfnUp(i) => layer_name(i, ".ffn_up.weight"@),
        Weight::FfnDown(i) => layer_name(i, ".ffn_down.weight"@),
        Weight::GateInp(i) => layer_name(i, ".ffn_gate_inp.weight"@),
        Weight::GateExpert(i, e) => expert_name(i, ".ffn_gate_exps."@, e),
        Weight::UpExpert(i, e) => expert_name(i, ".ffn_up_exps."@, e),
        Weight::DownExpert(i, e) => expert_name(i, ".ffn_down_exps."@, e),
    }
}

/// The layer of a weight, its part of the name, and what follows that part.
spec fn name_parts(w: Weight) -> Option<(usize, Seq<char>, Seq<char>)> {
    match w {
        Weight::TokenEmbd | Weight::OutputNorm | Weight::Output => None,
        Weight::AttnNorm(i) => Some((i, ".attn_norm.weight"@, Seq::empty())),
        Weight::AttnQ(i) => Some((i, ".attn_q.weight"@, Seq::empty())),
        Weight::AttnK(i) => Some((i, ".attn_k.weight"@, Seq::empty())),
        Weight::AttnV(i) => Some((i, ".attn_v.weight"@, Seq::empty())),
        Weight::AttnQNorm(i) => Some((i, ".attn_q_norm.weight"@, Seq::empty())),
        Weight::AttnKNorm(i) => Some((i, ".attn_k_norm.weight"@, Seq::empty())),
        Weight::AttnOutput(i) => Some((i, ".attn_output.weight"@, Seq::empty())),
        Weight::FfnNorm(i) => Some((i, ".ffn_norm.weight"@, Seq::empty())),
        Weight::FfnGate(i) => Some((i, ".ffn_gate.weight"@, Seq::empty())),
        Weight::FfnUp(i) => Some((i, ".ffn_up.weight"@, Seq::empty())),
        Weight::FfnDown(i) => Some((i, ".ffn_down.weight"@, Seq::empty())),
        Weight::GateInp(i) => Some((i, ".ffn_gate_inp.weight"@, Seq::empty())),
        Weight::GateExpert(i, e) => Some(
            (i, ".ffn_gate_exps."@, decimal(e as nat) + ".weight"@),
        ),
        Weight::UpExpert(i, e) => Some((i, ".ffn_up_exps."@, decimal(e as nat) + ".weight"@)),
        Weight::DownExpert(i, e) => Some(
            (i, ".ffn_down_exps."@, decimal(e as nat) + ".weight"@),
        ),
    }
}

/// The characters that tell the parts of names apart.
spec fn marks(part: Seq<char>) -> (char, char, char, char, char, char) {
    (part[1], part[5], part[6], part[7], part[9], part[10])
}

proof fn lemma_parts(w: Weight)
    ensures
        match name_parts(w) {
            Some((i, part, rest)) => {
                &&& weight_name(w) =~= "blk."@ + (decimal(i as nat) + (part + rest))
                &&& part.len() > 10
                &&& part[0] == '.'
                &&& match w {
                    Weight::AttnNorm(_) => marks(part) == ('a', '_', 'n', 'o', 'm', '.'),
                    Weight::AttnQ(_) => marks(part) == ('a', '_', 'q', '.', 'e', 'i'),
                    Weight::AttnK(_) => marks(part) == ('a', '_', 'k', '.', 'e', 'i'),
                    Weight::AttnV(_) => marks(part) == ('a', '_', 'v', '.', 'e', 'i'),
                    Weight::AttnQNorm(_) => marks(part) == ('a', '_', 'q', '_', 'o', 'r'),
                    Weight::AttnKNorm(_) => marks(part) == ('a', '_', 'k', '_', 'o', 'r'),
                    Weight::AttnOutput(_) => marks(part) == ('a', '_', 'o', 'u', 'p', 'u'),
                    Weight::FfnNorm(_) => marks(part) == ('f', 'n', 'o', 'r', '.', 'w'),
                    Weight::FfnGate(_) => marks(part) == ('f', 'g', 'a', 't', '.', 'w'),
                    Weight::FfnUp(_) => marks(part) == ('f', 'u', 'p', '.', 'e', 'i'),
                    Weight::FfnDown(_) => marks(part) == ('f', 'd', 'o', 'w', '.', 'w'),
                    Weight::GateInp(_) => marks(part) == ('f', 'g', 'a', 't', '_', 'i'),
                    Weight::GateExpert(_, _) => marks(part) == ('f', 'g', 'a', 't', '_', 'e'),
                    Weight::UpExpert(_, _) => marks(part) == ('f', 'u', 'p', '_', 'x', 'p'),
                    Weight::DownExpert(_, _) => marks(part) == ('f', 'd', 'o', 'w', '_', 'e'),
                    _ => true,
                }
            },
            None => weight_name(w).len() > 6 && weight_name(w)[0] != 'b',
        },
{
    reveal_strlit("token_embd.weight");
    reveal_strlit("output_norm.weight");
    reveal_strlit("output.weight");
    reveal_strlit(".attn_norm.weight");
    reveal_strlit(".attn_q.weight");
    reveal_strlit(".attn_k.weight");
    reveal_strlit(".attn_v.weight");
    reveal_strlit(".attn_q_norm.weight");
    reveal_strlit(".attn_k_norm.weight");
    reveal_strlit(".attn_output.weight");
    reveal_strlit(".ffn_norm.weight");
    reveal_strlit(".ffn_gate.weight");
    reveal_strlit(".ffn_up.weight");
    reveal_strlit(".ffn_down.weight");
    reveal_strlit(".ffn_gate_inp.weight");
    reveal_strlit(".ffn_gate_exps.");
    reveal_strlit(".ffn_up_exps.");
    reveal_strlit(".ffn_down_exps.");
}

/// No two weights are stored under one name.
pub proof fn law_weights_have_names_of_their_own(a: Weight, b: Weight)
    requires
        weight_name(a) == weight_name(b),
    ensures
        a == b,
{
    reveal_strlit("blk.");
    reveal_strlit(".weight");
    lemma_parts(a);
    lemma_parts(b);
    match (name_parts(a), name_parts(b)) {
        (Some((i, p, x)), Some((j, q, y))) => {
            let (n, s, t) = (weight_name(a), p + x, q + y);
            let (u, v) = (decimal(i as nat) + s, decimal(j as nat) + t);
            assert(u =~= n.subrange(4, n.len() as int));
            assert(v =~= n.subrange(4, n.len() as int));
            lemma_numeral_ends(i as nat, s, j as nat, t);
            assert forall|k: int| 0 <= k <= 10 implies p[k] == q[k] by {
                assert(s[k] == p[k] && t[k] == q[k]);
            }
            assert(marks(p) == marks(q));
            assert(p == q);
            assert(x =~= s.subrange(p.len() as int, s.len() as int));
            assert(y =~= t.subrange(p.len() as int, s.len() as int));
            match (a, b) {
                (Weight::GateExpert(_, e), Weight::GateExpert(_, f)) => {
                    lemma_numeral_ends(e as nat, ".weight"@, f as nat, ".weight"@);
                },
                (Weight::UpExpert(_, e), Weight::UpExpert(_, f)) => {
                    lemma_numeral_ends(e as nat, ".weight"@, f as nat, ".weight"@);
                },
                (Weight::DownExpert(_, e), Weight::DownExpert(_, f)) => {
                    lemma_numeral_ends(e as nat, ".weight"@, f as nat, ".weight"@);
                },
                _ => {},
            }
        },
        (Some(_), None) => {
            assert(weight_name(a)[0] == 'b');
        },
        (None, Some(_)) => {
            assert(weight_name(b)[0] == 'b');
        },
        (None, None) => {
            reveal_strlit("token_embd.weight");
            reveal_strlit("output_norm.weight");
            reveal_strlit("output.weight");
        },
    }
}

fn name_in_layer(layer: usize, part: &str) -> (r: String)
    ensures
        r@ == layer_name(layer, part@),
{
    let n = decimal_string(layer as u64);
    concat3("blk.", n.as_str(), part)
}

fn name_of_expert(layer: usize, part: &str, expert: usize) -> (r: String)
    ensures
        r@ == expert_name(layer, part@, expert),
{
    let mut out = name_in_layer(layer, part);
    push_decimal(&mut out, expert as u64);
    out.append(".weight");
    out
}

impl Weight {
    /// The name under which the weight is stored.
    pub fn name(&self) -> (r: String)
        ensures
            r@ == weight_name(*self),
    {
        match *self {
            Weight::TokenEmbd => "token_embd.weight".to_owned(),
            Weight::OutputNorm => "output_norm.weight".to_owned(),
            Weight::Output => "output.weight".to_owned(),
            Weight::AttnNorm(i) => name_in_layer(i, ".attn_norm.weight"),
            Weight::AttnQ(i) => name_in_layer(i, ".attn_q.weight"),
            Weight::AttnK(i) => name_in_layer(i, ".attn_k.weight"),
            Weight::AttnV(i) => name_in_layer(i, ".attn_v.weight"),
            Weight::AttnQNorm(i) => name_in_layer(i, ".attn_q_norm.weight"),
            Weight::AttnKNorm(i) => name_in_layer(i, ".attn_k_norm.weight"),
            Weight::AttnOutput(i) => name_in_layer(i, ".attn_output.weight"),
            Weight::FfnNorm(i) => name_in_layer(i, ".ffn_norm.weight"),
            Weight::FfnGate(i) => name_in_layer(i, ".ffn_gate.weight"),
            Weight::FfnUp(i) => name_in_layer(i, ".ffn_up.weight"),
            Weight::FfnDown(i) => name_in_layer(i, ".ffn_down.weight"),
            Weight::GateInp(i) => name_in_layer(i, ".ffn_gate_inp.weight"),
            Weight::GateExpert(i, e) => name_of_expert(i, ".ffn_gate_exps.", e),
            Weight::UpExpert(i, e) => name_of_expert(i, ".ffn_up_exps.", e),
            Weight::DownExpert(i, e) => name_of_expert(i, ".ffn_down_exps.", e),
        }
    }
}

/// Names of normalisation weights.
pub open spec fn is_norm_name(name: Seq<char>) -> bool {
    ||| has_suffix(name, "attn_norm.weight"@)
    ||| has_suffix(name, "ffn_norm.weight"@)
    ||| has_suffix(name, "attn_q_norm.weight"@)
    ||| has_suffix(name, "attn_k_norm.weight"@)
    ||| has_suffix(name, "post_attention_norm.weight"@)
    ||| has_suffix(name, "post_ffn_norm.weight"@)
    ||| name == "output_norm.weight"@
}

/// Whether a tensor is a normalisation weight: by its name, and one-dimensional.
pub fn is_norm_tensor(name: &str, rank: usize) -> (r: bool)
    ensures
        r == (is_norm_name(name@) && rank == 1),
{
    let c = chars_of(name);
    let s = c.as_slice();
    rank == 1 && (ends_with_str(s, "attn_norm.weight") || ends_with_str(s, "ffn_norm.weight")
        || ends_with_str(s, "attn_q_norm.weight") || ends_with_str(s, "attn_k_norm.weight")
        || ends_with_str(s, "post_attention_norm.weight") || ends_with_str(
        s,
        "post_ffn_norm.weight",
    ) || same_str(name, "output_norm.weight"))
}

/// The weight of the output head: its own where there is one, else the embedding.
pub fn lm_head(has_output: bool) -> (r: Weight)
    ensures
        r == if has_output {
            Weight::Output
        } else {
            Weight::TokenEmbd
        },
{
    if has_output {
        Weight::Output
    } else {
        Weight::TokenEmbd
    }
}

} // verus!
