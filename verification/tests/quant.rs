use half::f16;

use hearth::gguf::ggml::GgmlDType;
use hearth::quant::codes::{element, small_sign_element, Element};
use hearth::quant::dot::{dot_codes, dot_terms, small_dot_terms, DotTerm};
use hearth::quant::expand::{expand_codes, expand_form, ExpandForm};
use hearth::quant::widen::{half_to_single, read_singles, widen_brains, widen_halves};

fn single(h: u16) -> f32 {
    f32::from_bits(half_to_single(h))
}

/// The value of an element.
fn value(e: &Element) -> f32 {
    e.q as f32 * (e.scale as f32 * single(e.d)) - e.min as f32 * single(e.m)
}

fn dequantize(d: GgmlDType, data: &[u8], out: &mut [f32]) {
    let elements = expand_codes(d, data, out.len());
    for (o, e) in out.iter_mut().zip(elements.iter()) {
        *o = value(e);
    }
}

/// The value of a dot product.
fn total(terms: &[DotTerm]) -> f32 {
    terms.iter().map(|t| t.sum as f32 * single(t.w) * single(t.a)).sum()
}

/// The dot product of a quantised row with single-precision values.
fn dot_f32(d: GgmlDType, row: &[u8], vec: &[f32], n: usize) -> f32 {
    (0..n).map(|i| value(&element(d, row, i)) * vec[i]).sum()
}

fn quantize(src: &[f32], dst: &mut Vec<u8>) {
    for chunk in src.chunks(32) {
        let max_abs = chunk.iter().fold(0.0f32, |m, v| m.max(v.abs()));
        let scale = if max_abs == 0.0 { 1.0 } else { max_abs / 127.0 };
        dst.extend_from_slice(&f16::from_f32(scale).to_le_bytes());
        for i in 0..32 {
            let q = if i < chunk.len() {
                (chunk[i] / scale).round().clamp(-128.0, 127.0) as i8
            } else {
                0
            };
            dst.push(q as u8);
        }
    }
}

#[test]
fn test_q1_0_dequantize() {
    let mut data = vec![0u8; 6 * 2];
    let s = f16::from_f32(1.0).to_le_bytes();
    data[0] = s[0];
    data[1] = s[1];
    // Pack 1-bit codes: 0b00001011 = bits [1,1,0,1,0,0,0,0] = [+1,+1,-1,+1,-1,-1,-1,-1]
    data[2] = 0b00001011;
    let mut out = vec![0.0f32; 64];
    for (i, o) in out.iter_mut().enumerate() {
        *o = value(&small_sign_element(&data, i));
    }
    assert!((out[0] - 1.0).abs() < 1e-6, "out[0] should be +1");
    assert!((out[1] - 1.0).abs() < 1e-6, "out[1] should be +1");
    assert!((out[2] - (-1.0)).abs() < 1e-6, "out[2] should be -1");
    assert!((out[3] - 1.0).abs() < 1e-6, "out[3] should be +1");
}

#[test]
fn test_q1_0_dot() {
    let mut w_data = vec![0u8; 6];
    let ws = f16::from_f32(2.0).to_le_bytes();
    w_data[0] = ws[0];
    w_data[1] = ws[1];
    // All bits = 1 -> weight = +scale for all
    for i in 0..4 {
        w_data[2 + i] = 0xFF;
    }
    let vec: Vec<f32> = (0..32).map(|i| (i as f32 - 16.0) * 0.01).collect();
    let dot: f32 = (0..32).map(|i| value(&small_sign_element(&w_data, i)) * vec[i]).sum();
    assert!(dot.is_finite(), "dot should be finite, got {}", dot);
    assert!((dot - 2.0 * vec.iter().sum::<f32>()).abs() < 1e-5);
}

#[test]
fn test_dot_q1_0g128_q8_0() {
    // Create a simple Q1_0_G128 weight row
    let mut w_data = vec![0u8; 18];
    let ws = f16::from_f32(2.0).to_le_bytes();
    w_data[0] = ws[0];
    w_data[1] = ws[1];
    for i in 0..16 {
        w_data[2 + i] = 0xFF; // all 1 bits -> +scale
    }

    // Q8_0 activation: all ones scaled by 1.0
    let src: Vec<f32> = (0..128).map(|i| (i as f32 - 64.0) * 0.01).collect();
    let mut act_data = Vec::new();
    quantize(&src, &mut act_data);

    let dot = total(&dot_terms(GgmlDType::Q1_0_G128, &w_data, &act_data, 128));
    assert!(dot.is_finite(), "dot should be finite, got {}", dot);
    assert!((dot - 2.0 * src.iter().sum::<f32>()).abs() < 0.25);
}

/// Fused dot product for Q1_0_G128: inlines both dequantize and dot into one pass.
fn fused_dot_q1_0g128(w: &[u8], x: &[f32], n: usize) -> f32 {
    let blocks = n / 128;
    let mut total = 0.0f32;
    for b in 0..blocks {
        let bo = b * 18;
        let sf: f32 = f16::from_le_bytes([w[bo], w[bo + 1]]).to_f32();
        let bb = bo + 2;
        let xs = b * 128;
        let mut bsum = 0.0f32;
        for byte_i in 0..16usize {
            let mut bits = w[bb + byte_i];
            let xb = xs + byte_i * 8;
            for k in 0..8usize {
                bsum += if bits & 1 != 0 { x[xb + k] } else { -x[xb + k] };
                bits >>= 1;
            }
        }
        total += bsum * sf;
    }
    total
}

/// Dequantize, then a single-precision dot product.
fn ref_dot_q1_0g128(w: &[u8], x: &[f32], n: usize) -> f32 {
    let mut dq = vec![0.0f32; n];
    dequantize(GgmlDType::Q1_0_G128, w, &mut dq);
    x.iter().zip(dq.iter()).map(|(a, b)| a * b).sum()
}

#[test]
fn test_fused_vs_ref_dot_q1_0g128_random() {
    // Create a random Q1_0_G128 weight row (2 blocks = 256 elements)
    let mut w = vec![0u8; 2 * 18];
    for b in 0..2 {
        let bo = b * 18;
        // Random scale in [0.01, 1.0]
        let scale = 0.01 + (b as f32 * 0.3).sin().abs() * 0.99;
        let s = f16::from_f32(scale).to_le_bytes();
        w[bo] = s[0];
        w[bo + 1] = s[1];
        // Random bits
        for j in 0..16usize {
            w[bo + 2 + j] = (j.wrapping_mul(37) ^ 0xAB) as u8;
        }
    }

    let x: Vec<f32> = (0..256).map(|i| ((i as f32) * 0.13).sin()).collect();

    let fused = fused_dot_q1_0g128(&w, &x, 256);
    let reference = ref_dot_q1_0g128(&w, &x, 256);

    assert!(
        (fused - reference).abs() < 1e-4,
        "fused={} != ref={}, diff={}",
        fused,
        reference,
        (fused - reference).abs()
    );
}

#[test]
fn test_fused_vs_ref_dot_q1_0g128_zeros() {
    // Edge case: zero input
    let mut w = vec![0u8; 18];
    let s = f16::from_f32(0.5).to_le_bytes();
    w[0] = s[0];
    w[1] = s[1];
    for j in 0..16 {
        w[2 + j] = 0xFF;
    }
    let x = vec![0.0f32; 128];
    let fused = fused_dot_q1_0g128(&w, &x, 128);
    let reference = ref_dot_q1_0g128(&w, &x, 128);
    assert!(
        (fused - reference).abs() < 1e-6,
        "zeros: fused={} != ref={}",
        fused,
        reference
    );
}

#[test]
fn test_fused_vs_ref_dot_q1_0g128_negative() {
    // Edge case: all negative bits
    let mut w = vec![0u8; 18];
    let s = f16::from_f32(1.5).to_le_bytes();
    w[0] = s[0];
    w[1] = s[1];
    for j in 0..16 {
        w[2 + j] = 0x00; // all bits 0 -> -scale
    }
    let x: Vec<f32> = (0..128).map(|i| i as f32 * 0.01).collect();
    let fused = fused_dot_q1_0g128(&w, &x, 128);
    let reference = ref_dot_q1_0g128(&w, &x, 128);
    assert!(
        (fused - reference).abs() < 1e-5,
        "neg: fused={} != ref={}",
        fused,
        reference
    );
}

#[test]
fn test_q2_0_dequantize() {
    let mut data = vec![0u8; 34 * 2];
    let s = f16::from_f32(2.0).to_le_bytes();
    data[0] = s[0];
    data[1] = s[1];
    // byte 0: q[0..3] = 0,1,2,0 -> values: -1, 0, +1, -1
    data[2] = 0b00100100;
    let mut out = vec![0.0f32; 256];
    dequantize(GgmlDType::Q2_0, &data, &mut out);
    assert!(
        (out[0] - (-2.0)).abs() < 1e-6,
        "out[0]={} should be -2",
        out[0]
    );
    assert!((out[1] - 0.0).abs() < 1e-6, "out[1]={} should be 0", out[1]);
    assert!(
        (out[2] - 2.0).abs() < 1e-6,
        "out[2]={} should be +2",
        out[2]
    );
    assert!(
        (out[3] - (-2.0)).abs() < 1e-6,
        "out[3]={} should be -2",
        out[3]
    );
}

#[test]
fn test_dot_q2_0_q8_0_basic() {
    // Weight: all values = +1 (q=2, bits 10)
    let mut w = vec![0u8; 34];
    let ws = f16::from_f32(2.0).to_le_bytes();
    w[0] = ws[0];
    w[1] = ws[1];
    for j in 0..32 {
        w[2 + j] = 0xAA;
    }
    // Activation: known values
    let src: Vec<f32> = (0..128).map(|i| (i as f32 - 64.0) * 0.01).collect();
    let mut act_data = Vec::new();
    quantize(&src, &mut act_data);
    let dot = total(&dot_terms(GgmlDType::Q2_0, &w, &act_data, 128));
    assert!(dot.is_finite(), "dot should be finite, got {}", dot);
    assert!((dot - 2.0 * src.iter().sum::<f32>()).abs() < 0.25);
}

#[test]
fn test_dot_q2_0_q8_0_vs_f32() {
    // Compare the dot product with a quantised activation against the one with the plain values
    let mut w = vec![0u8; 34 * 2];
    for b in 0..2 {
        let bo = b * 34;
        let scale = if b == 0 { 1.5f32 } else { 2.0f32 };
        let ws = f16::from_f32(scale).to_le_bytes();
        w[bo] = ws[0];
        w[bo + 1] = ws[1];
        // Mix of values: 0->-1, 1->0, 2->+1, 3->+2
        for j in 0..32 {
            w[bo + 2 + j] = (j as u8).wrapping_mul(37) ^ 0xAB;
        }
    }
    let src: Vec<f32> = (0..256).map(|i| ((i as f32) * 0.13).sin()).collect();
    let mut act_data = Vec::new();
    quantize(&src, &mut act_data);
    let dot_q8 = total(&dot_terms(GgmlDType::Q2_0, &w, &act_data, 256));
    let plain = dot_f32(GgmlDType::Q2_0, &w, &src, 256);
    let err = (dot_q8 - plain).abs();
    let max_err = plain.abs().max(1.0) * 0.01 + 0.5;
    assert!(
        err < max_err,
        "dot_q8_0={} vs dot_f32={}, diff={}, max_err={}",
        dot_q8,
        plain,
        err,
        max_err
    );
}

#[test]
fn test_q2_0_dot_f32() {
    let mut w = vec![0u8; 34];
    let ws = f16::from_f32(1.0).to_le_bytes();
    w[0] = ws[0];
    w[1] = ws[1];
    // All values = +1 (q=2, bits 10)
    for j in 0..32 {
        w[2 + j] = 0xAA; // 10101010 -> each 2-bit pair = 10 = 2
    }
    let vec: Vec<f32> = (0..128).map(|i| i as f32 * 0.01).collect();
    let dot = dot_f32(GgmlDType::Q2_0, &w, &vec, 128);
    let expected: f32 = vec.iter().sum::<f32>() * 1.0; // all weights = +1
    let err = (dot - expected).abs();
    assert!(
        err < 0.01,
        "dot error: {} vs {}, diff={}",
        dot,
        expected,
        err
    );
}

fn quantize_q4_0(src: &[f32]) -> Vec<u8> {
    let n = src.len();
    let blocks = n.div_ceil(32);
    let mut dst = Vec::with_capacity(blocks * 18);
    for b in 0..blocks {
        let start = b * 32;
        let mut max_abs = 0.0f32;
        for i in 0..32 {
            let idx = start + i;
            if idx < n {
                max_abs = max_abs.max(src[idx].abs());
            }
        }
        let scale = if max_abs == 0.0 { 1.0 } else { max_abs / 7.0 };
        let scale_f16 = f16::from_f32(scale);
        dst.extend_from_slice(&scale_f16.to_le_bytes());
        for i in 0..16 {
            let idx0 = start + i * 2;
            let idx1 = start + i * 2 + 1;
            let q0 = if idx0 < n {
                ((src[idx0] / scale + 8.0).round().clamp(0.0, 15.0)) as u8
            } else {
                8u8
            };
            let q1 = if idx1 < n {
                ((src[idx1] / scale + 8.0).round().clamp(0.0, 15.0)) as u8
            } else {
                8u8
            };
            dst.push(q0 | (q1 << 4));
        }
    }
    dst
}

#[test]
fn test_q4_0_dequantize() {
    let src: Vec<f32> = (0..64).map(|i| (i as f32 - 32.0) * 0.1).collect();
    let quant = quantize_q4_0(&src);
    let mut dequant = vec![0.0f32; 64];
    dequantize(GgmlDType::Q4_0, &quant, &mut dequant);
    for i in 0..64 {
        let err = (src[i] - dequant[i]).abs();
        assert!(
            err < 0.3,
            "Error at {}: src={} deq={}",
            i,
            src[i],
            dequant[i]
        );
    }
}

#[test]
fn test_dot_q4_0() {
    let src: Vec<f32> = (0..64).map(|i| (i as f32 - 32.0) * 0.1).collect();
    let vec: Vec<f32> = (0..64).map(|i| i as f32 * 0.05).collect();
    let quant = quantize_q4_0(&src);
    let dot = dot_f32(GgmlDType::Q4_0, &quant, &vec, 64);
    let expected: f32 = src.iter().zip(vec.iter()).map(|(a, b)| a * b).sum();
    let err = (dot - expected).abs();
    assert!(
        err < expected.abs() * 0.1 + 1.0,
        "dot error: {} vs {}, diff={}",
        dot,
        expected,
        err
    );
}

#[test]
fn test_q4_k_dequantize() {
    let data = vec![0u8; 144 * 2]; // 2 blocks of zeros
    let mut out = vec![0.0f32; 512];
    dequantize(GgmlDType::Q4_K, &data, &mut out);
    for v in &out {
        assert!((*v).abs() < 1e-6);
    }
}

fn quantize_q5_1(src: &[f32]) -> Vec<u8> {
    let n = src.len();
    let blocks = n.div_ceil(32);
    let mut dst = Vec::with_capacity(blocks * 24);
    for b in 0..blocks {
        let start = b * 32;
        let mut min_val = f32::MAX;
        let mut max_val = f32::MIN;
        for i in 0..32 {
            let idx = start + i;
            if idx < n {
                min_val = min_val.min(src[idx]);
                max_val = max_val.max(src[idx]);
            }
        }
        let range = max_val - min_val;
        let scale = if range == 0.0 { 1.0 } else { range / 31.0 };
        let min_offset = -min_val;
        let scale_f16 = f16::from_f32(scale);
        let min_f16 = f16::from_f32(min_offset);
        dst.extend_from_slice(&scale_f16.to_le_bytes());
        dst.extend_from_slice(&min_f16.to_le_bytes());
        let mut qh = [0u8; 4];
        let mut qs_bytes = [0u8; 16];
        for i in 0..16 {
            let idx0 = start + i * 2;
            let idx1 = start + i * 2 + 1;
            let q0 = if idx0 < n {
                ((src[idx0] + min_offset) / scale).round().clamp(0.0, 31.0) as u8
            } else {
                0u8
            };
            let q1 = if idx1 < n {
                ((src[idx1] + min_offset) / scale).round().clamp(0.0, 31.0) as u8
            } else {
                0u8
            };
            if q0 & 0x10 != 0 {
                qh[(i * 2) / 8] |= 1 << ((i * 2) % 8);
            }
            if q1 & 0x10 != 0 {
                qh[(i * 2 + 1) / 8] |= 1 << ((i * 2 + 1) % 8);
            }
            qs_bytes[i] = (q0 & 0x0F) | ((q1 & 0x0F) << 4);
        }
        dst.extend_from_slice(&qh);
        dst.extend_from_slice(&qs_bytes);
    }
    dst
}

#[test]
fn test_q5_1_dequantize() {
    let src: Vec<f32> = (0..64).map(|i| (i as f32 - 32.0) * 0.1).collect();
    let quant = quantize_q5_1(&src);
    let mut dequant = vec![0.0f32; 64];
    dequantize(GgmlDType::Q5_1, &quant, &mut dequant);
    for i in 0..64 {
        let err = (src[i] - dequant[i]).abs();
        assert!(
            err < 0.2,
            "Error at {}: src={} deq={}",
            i,
            src[i],
            dequant[i]
        );
    }
}

#[test]
fn test_dot_q5_1() {
    let src: Vec<f32> = (0..64).map(|i| (i as f32 - 32.0) * 0.1).collect();
    let vec: Vec<f32> = (0..64).map(|i| i as f32 * 0.05).collect();
    let quant = quantize_q5_1(&src);
    let dot = dot_f32(GgmlDType::Q5_1, &quant, &vec, 64);
    let expected: f32 = src.iter().zip(vec.iter()).map(|(a, b)| a * b).sum();
    let err = (dot - expected).abs();
    assert!(
        err < expected.abs() * 0.1 + 1.0,
        "dot error: {} vs {}, diff={}",
        dot,
        expected,
        err
    );
}

#[test]
fn test_roundtrip_q8_0() {
    let src: Vec<f32> = (0..64).map(|i| (i as f32 - 32.0) * 0.5).collect();
    let mut quant = Vec::new();
    quantize(&src, &mut quant);
    let mut dequant = vec![0.0_f32; 64];
    dequantize(GgmlDType::Q8_0, &quant, &mut dequant);
    for i in 0..64 {
        let err = (src[i] - dequant[i]).abs();
        assert!(
            err < 1.0,
            "Error at {}: src={} deq={}",
            i,
            src[i],
            dequant[i]
        );
    }
}

#[test]
fn test_dot_q8_0() {
    let src: Vec<f32> = (0..64).map(|i| (i as f32 - 32.0) * 0.5).collect();
    let vec: Vec<f32> = (0..64).map(|i| i as f32 * 0.1).collect();
    let mut quant = Vec::new();
    quantize(&src, &mut quant);
    let dot = dot_f32(GgmlDType::Q8_0, &quant, &vec, 64);
    let expected: f32 = src.iter().zip(vec.iter()).map(|(a, b)| a * b).sum();
    let err = (dot - expected).abs();
    assert!(
        err < expected.abs() * 0.02 + 1.0,
        "dot error: {} vs {}, diff={}",
        dot,
        expected,
        err
    );
}

#[test]
fn every_half_widens_as_the_format_says() {
    for h in 0..=u16::MAX {
        let mine = half_to_single(h);
        let other = f16::from_bits(h).to_f32();
        if other.is_nan() {
            assert!(f32::from_bits(mine).is_nan());
        } else {
            assert_eq!(mine, other.to_bits());
        }
    }
}

#[test]
fn runs_are_widened_up_to_the_limit() {
    let bytes = [0x00, 0x3c, 0x00, 0xc0, 0x01];
    assert_eq!(widen_halves(&bytes, 8), vec![0x3f80_0000, 0xc000_0000]);
    assert_eq!(widen_halves(&bytes, 1), vec![0x3f80_0000]);
    assert_eq!(widen_brains(&[0x80, 0x3f], 4), vec![0x3f80_0000]);
    assert_eq!(read_singles(&[0, 0, 0x80, 0x3f, 1], 4), vec![0x3f80_0000]);
}

#[test]
fn every_code_format_has_a_known_first_element() {
    // One block of ones in each byte of a format.
    let q8 = vec![1u8; 34];
    assert_eq!(element(GgmlDType::Q8_0, &q8, 0), Element { q: 1, scale: 1, min: 0, d: 0x0101, m: 0 });
    let q4 = vec![0x21u8; 18];
    assert_eq!(element(GgmlDType::Q4_0, &q4, 0).q, 1 - 8);
    assert_eq!(element(GgmlDType::Q4_0, &q4, 1).q, 2 - 8);
    let q1 = vec![0x01u8; 18];
    assert_eq!(element(GgmlDType::Q1_0, &q1, 0).q, 1);
    assert_eq!(element(GgmlDType::Q1_0, &q1, 1).q, -1);
    let q2 = vec![0b11_10_01_00u8; 34];
    let codes: Vec<i32> = (0..4).map(|i| element(GgmlDType::Q2_0, &q2, i).q).collect();
    assert_eq!(codes, vec![-1, 0, 1, 2]);
}

#[test]
fn a_dot_product_of_codes_is_exact() {
    assert_eq!(dot_codes(&[1, -2, 3], &[4, 5, -6]), 4 - 10 - 18);
    // Weights of one, activations of one to thirty-two.
    let mut row = vec![0u8; 34];
    let mut act = vec![0u8; 34];
    for i in 0..32 {
        row[2 + i] = 1;
        act[2 + i] = (i + 1) as u8;
    }
    row[1] = 0x3c;
    act[1] = 0x40;
    let terms = dot_terms(GgmlDType::Q8_0, &row, &act, 32);
    assert_eq!(terms, vec![DotTerm { sum: 528, w: 0x3c00, a: 0x4000 }]);
    assert_eq!(total(&terms), 1056.0);
    // The lower halves of four-bit codes go with the first sixteen activations.
    let mut four = vec![0x89u8; 18];
    four[0] = 0;
    four[1] = 0x3c;
    let terms = dot_terms(GgmlDType::Q4_0, &four, &act, 32);
    assert_eq!(terms, vec![DotTerm { sum: 136, w: 0x3c00, a: 0x4000 }]);
    // Six-byte blocks of signs.
    let signs = [0x00, 0x3c, 0xff, 0xff, 0xff, 0xff];
    assert_eq!(small_dot_terms(&signs, &act, 32), vec![DotTerm { sum: 528, w: 0x3c00, a: 0x4000 }]);
}

#[test]
fn formats_without_values_are_refused() {
    assert_eq!(expand_form(GgmlDType::F32), Ok(ExpandForm::Single));
    assert_eq!(expand_form(GgmlDType::F16), Ok(ExpandForm::Half));
    assert_eq!(expand_form(GgmlDType::BF16), Ok(ExpandForm::Brain));
    assert_eq!(expand_form(GgmlDType::Q6_K), Ok(ExpandForm::Codes));
    assert_eq!(
        expand_form(GgmlDType::Q8_K),
        Err("Dequant for Q8_K not yet implemented - try a Q8_0 or Q4_K model instead".to_string())
    );
    assert_eq!(
        expand_form(GgmlDType::IQ2_XXS),
        Err("Unsupported quantization type: IQ2_XXS (requires a dequant kernel)".to_string())
    );
}

#[test]
fn wide_blocks_hold_their_own_codes() {
    // Five bits: a nibble, and one bit of a mask for each element.
    let mut five = vec![0u8; 176];
    five[1] = 0x3c;
    five[3] = 0x40;
    five[4] = 0x65;
    five[19] = 0x21;
    five[20] = 0b0100_0000;
    five[51] = 0b0010_0000;
    five[52] = 0xf3;
    five[175] = 0xf0;
    let e = expand_codes(GgmlDType::Q5_K, &five, usize::MAX);
    assert_eq!(e.len(), 256);
    assert_eq!((e[0].q, e[0].scale, e[0].min, e[0].d, e[0].m), (3, 5, 6, 0x3c00, 0x4000));
    assert_eq!((e[1].q, e[2].q, e[5].q), (31, 0, 0));
    assert_eq!((e[15].scale, e[16].scale), (5, 0));
    assert_eq!((e[246].q, e[247].q, e[248].q), (0, 15, 0));
    assert_eq!((e[255].q, e[255].scale, e[255].min), (16, 1, 2));
    // Three bits: two of a byte, and one bit of a mask for each element.
    let mut three = vec![0u8; 110];
    three[1] = 0x3c;
    three[2] = 0xff;
    three[18] = 0b0100_0000;
    three[50] = 0b0000_1101;
    three[109] = 0b0100_0000;
    let e = expand_codes(GgmlDType::Q3_K, &three, usize::MAX);
    assert_eq!(e.len(), 256);
    assert_eq!((e[0].q, e[0].scale, e[0].d), (1, 255, 0x3c00));
    assert_eq!((e[1].q, e[4].q, e[5].q), (-1, 0, 0));
    assert_eq!((e[16].scale, e[239].q, e[255].q), (0, 1, 0));
    // The low bits of the last elements are those behind the block, where there are any.
    three.extend_from_slice(&[0, 0, 0, 0b1100_0000]);
    assert_eq!(expand_codes(GgmlDType::Q3_K, &three, usize::MAX)[255].q, 3);
}

#[test]
fn offsets_and_centred_codes_have_their_blocks() {
    let mut four = vec![0u8; 20];
    four[1] = 0x3c;
    four[3] = 0x40;
    four[4] = 0xa7;
    let e = expand_codes(GgmlDType::Q4_1, &four, 3);
    assert_eq!(e.len(), 3);
    assert_eq!((e[0].q, e[1].q, e[2].q), (7, 10, 0));
    assert_eq!((e[0].scale, e[0].min, e[0].d, e[0].m), (1, 1, 0x3c00, 0x4000));
    let mut five = vec![0u8; 22];
    five[1] = 0x3c;
    five[2] = 0b0000_0010;
    five[6] = 0xf3;
    let e = expand_codes(GgmlDType::Q5_0, &five, 32);
    assert_eq!((e[0].q, e[1].q, e[2].q), (-13, 15, -16));
    assert_eq!((e[0].min, e[0].d), (0, 0x3c00));
}
