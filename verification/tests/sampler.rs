use hearth::engine::request::SamplerConfig;
use hearth::llm::moe::select_experts;
use hearth::rank::{less_bits, rank_descending};
use hearth::sampler::{
    apply_top_k, drop_below, greedy, only_numbers, penalised_places, pick, plan_sampling,
    rank_values, zero_tail,
};
use hearth::sampling::{sampling_steps, SampleStep};

fn bits(v: &[f32]) -> Vec<u32> {
    v.iter().map(|x| x.to_bits()).collect()
}

fn floats(v: &[u32]) -> Vec<f32> {
    v.iter().map(|x| f32::from_bits(*x)).collect()
}

/// What is drawn at temperature zero.
fn sample_greedily(logits: &[f32], config: &SamplerConfig) -> u32 {
    assert!(plan_sampling(config, logits.len()).greedy);
    greedy(&bits(logits))
}

#[test]
fn test_greedy_argmax() {
    let logits = vec![-1.0, -2.0, 5.0, 0.5];
    let config = SamplerConfig {
        temperature_bits: 0.0f32.to_bits(),
        ..Default::default()
    };
    let token = sample_greedily(&logits, &config);
    assert_eq!(token, 2);
}

#[test]
fn test_temperature_zero_equiv_greedy() {
    let logits = vec![0.1, 0.2, 0.7, 0.05];
    let config = SamplerConfig {
        temperature_bits: 0.0f32.to_bits(),
        ..Default::default()
    };
    let token = sample_greedily(&logits, &config);
    assert_eq!(token, 2);
}

#[test]
fn the_default_configuration_is_as_documented() {
    let c = SamplerConfig::default();
    assert_eq!(f32::from_bits(c.temperature_bits), 0.7);
    assert_eq!(c.top_k, 40);
    assert_eq!(f32::from_bits(c.top_p_bits), 0.9);
    assert_eq!(f32::from_bits(c.repeat_pen_bits), 1.1);
    assert_eq!(c.seed, 0);
}

#[test]
fn the_last_of_equal_greatest_values_is_taken() {
    assert_eq!(greedy(&bits(&[3.0, 1.0, 3.0, 2.0])), 2);
    assert_eq!(greedy(&bits(&[-5.0])), 0);
    assert_eq!(greedy(&bits(&[])), 0);
}

#[test]
fn a_plan_says_which_limits_take_effect() {
    let c = SamplerConfig {
        temperature_bits: 1.0f32.to_bits(),
        top_k: 4,
        top_p_bits: 1.0f32.to_bits(),
        min_p_bits: 0.1f32.to_bits(),
        typical_p_bits: 0.0f32.to_bits(),
        repeat_pen_bits: 1.0f32.to_bits(),
        seed: 42,
    };
    let p = plan_sampling(&c, 10);
    assert!(p.reseed && p.top_k && p.min_p);
    assert!(!p.greedy && !p.top_p && !p.typical_p);
    assert!(!plan_sampling(&c, 4).top_k);
}

#[test]
fn a_draw_has_its_steps_in_order() {
    let c = SamplerConfig {
        temperature_bits: 1.0f32.to_bits(),
        top_k: 4,
        top_p_bits: 0.9f32.to_bits(),
        min_p_bits: 0.1f32.to_bits(),
        typical_p_bits: 0.5f32.to_bits(),
        repeat_pen_bits: 1.0f32.to_bits(),
        seed: 42,
    };
    assert_eq!(
        sampling_steps(&c, 10),
        vec![
            SampleStep::Reseed(42),
            SampleStep::Penalise,
            SampleStep::Temperature,
            SampleStep::TopK(4),
            SampleStep::MinP,
            SampleStep::Softmax,
            SampleStep::TopP,
            SampleStep::TypicalP,
            SampleStep::Normalise,
            SampleStep::Draw,
        ]
    );
    let still = SamplerConfig { temperature_bits: 0, seed: 0, ..c };
    assert_eq!(sampling_steps(&still, 10), vec![SampleStep::Penalise, SampleStep::Greedy]);
    let plain = SamplerConfig { top_p_bits: 0, min_p_bits: 0, typical_p_bits: 0, seed: 0, ..c };
    assert_eq!(
        sampling_steps(&plain, 4),
        vec![
            SampleStep::Penalise,
            SampleStep::Temperature,
            SampleStep::Softmax,
            SampleStep::Normalise,
            SampleStep::Draw,
        ]
    );
}

#[test]
fn bit_patterns_order_as_their_values() {
    let values = [f32::NEG_INFINITY, -2.0, -0.5, -0.0, 0.0, 1e-30, 0.5, 3.0, f32::INFINITY, f32::NAN];
    for a in values {
        for b in values {
            assert_eq!(less_bits(a.to_bits(), b.to_bits()), a < b);
        }
    }
    assert!(only_numbers(&bits(&[1.0, f32::INFINITY])));
    assert!(!only_numbers(&bits(&[1.0, f32::NAN])));
}

#[test]
fn ranking_keeps_equal_values_in_order() {
    assert_eq!(rank_descending(&[1, 5, 3, 5]), vec![1, 3, 2, 0]);
    assert_eq!(rank_values(&bits(&[0.5, 0.25, 0.5])), vec![0, 2, 1]);
}

#[test]
fn top_k_keeps_the_greatest_values() {
    let v = bits(&[1.0, 4.0, 2.0, 3.0]);
    let inf = f32::NEG_INFINITY;
    assert_eq!(floats(&apply_top_k(&v, 1)), vec![inf, 4.0, inf, inf]);
    assert_eq!(floats(&apply_top_k(&v, 2)), vec![inf, 4.0, inf, 3.0]);
    assert_eq!(floats(&apply_top_k(&bits(&[4.0, 3.0, 2.0, 1.0]), 2)), vec![4.0, 3.0, inf, inf]);
    assert_eq!(floats(&apply_top_k(&bits(&[2.0, 3.0, 2.0, 1.0]), 2)), vec![2.0, 3.0, 2.0, inf]);
    assert_eq!(floats(&apply_top_k(&v, 0)), vec![1.0, 4.0, 2.0, 3.0]);
    assert_eq!(floats(&apply_top_k(&v, 9)), vec![1.0, 4.0, 2.0, 3.0]);
    assert_eq!(floats(&drop_below(&v, 2.5f32.to_bits())), vec![inf, 4.0, inf, 3.0]);
}

#[test]
fn the_tail_of_a_distribution_is_cut() {
    let v = bits(&[0.1, 0.6, 0.3]);
    let order = rank_values(&v);
    assert_eq!(order, vec![1, 2, 0]);
    assert_eq!(floats(&zero_tail(&v, &order, 2)), vec![0.0, 0.6, 0.3]);
}

#[test]
fn rounding_falls_back_to_the_likeliest_token() {
    let v = bits(&[0.2, 0.5, 0.3]);
    assert_eq!(pick(&v, Some(2)), 2);
    assert_eq!(pick(&v, None), 1);
}

#[test]
fn the_best_experts_are_chosen() {
    assert_eq!(select_experts(&bits(&[0.1, 0.9, 0.4, 0.7]), 2), vec![1, 3]);
    assert_eq!(select_experts(&bits(&[0.5, 0.5]), 2), vec![0, 1]);
}

#[test]
fn every_earlier_occurrence_is_penalised() {
    assert_eq!(penalised_places(&[2, 9, 0, 2], 3), vec![2, 0, 2]);
    assert!(penalised_places(&[], 3).is_empty());
}
