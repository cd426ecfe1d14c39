use hearth::diffusion::bilinear::{axis_taps, AxisTap};
use hearth::diffusion::flux::{
    forward_shape, latent_shape, plan_double_block, plan_single_block, FluxBuf, FluxConfig,
    FluxStep, FluxWeight, Stream,
};
use hearth::diffusion::grid::{
    rotary_pairs, take_columns, upsample_nearest_2x, window, with_alpha, zero_pad,
    RotaryPair, Tap,
};
use hearth::diffusion::noise::latent_noise;
use hearth::diffusion::png::{crc32, crc32_update, deflate_raw, encode_png, write_png_chunk};
use hearth::diffusion::vae::VaeDecoder;
use hearth::diffusion::weights::{parse_weights, ModelWeights, WeightsError, MAGIC};

struct Plain<'a> {
    name: &'a [u8],
    dtype: u8,
    data: &'a [u8],
}

fn file(quantised: &[(&str, u64, u64)], plain: &[Plain]) -> Vec<u8> {
    let mut out = MAGIC.to_le_bytes().to_vec();
    out.extend_from_slice(&(quantised.len() as u32).to_le_bytes());
    for (name, rows, cols) in quantised {
        out.extend_from_slice(&(name.len() as u16).to_le_bytes());
        out.extend_from_slice(name.as_bytes());
        out.extend_from_slice(&rows.to_le_bytes());
        out.extend_from_slice(&cols.to_le_bytes());
        out.extend_from_slice(&3u32.to_le_bytes());
        out.extend_from_slice(&[1, 2, 3]);
    }
    out.extend_from_slice(&(plain.len() as u32).to_le_bytes());
    for p in plain {
        out.extend_from_slice(&(p.name.len() as u16).to_le_bytes());
        out.extend_from_slice(p.name);
        out.extend_from_slice(&1u64.to_le_bytes());
        out.extend_from_slice(&2u64.to_le_bytes());
        out.push(p.dtype);
        out.extend_from_slice(&(p.data.len() as u32).to_le_bytes());
        out.extend_from_slice(p.data);
    }
    out.extend_from_slice(&MAGIC.to_le_bytes());
    out
}

fn parsed(bytes: &[u8]) -> ModelWeights {
    parse_weights(bytes).ok().unwrap()
}

fn refused(bytes: &[u8]) -> WeightsError {
    parse_weights(bytes).err().unwrap()
}

#[test]
fn weights_come_back_as_they_were_written() {
    let mut bytes = file(
        &[("q", 4, 8)],
        &[
            Plain { name: b"f", dtype: 0, data: &[0, 0, 0x80, 0x3f, 9] },
            Plain { name: b"h", dtype: 1, data: &[0x80, 0x3f, 0, 0x40] },
        ],
    );
    bytes.push(77);
    let w = parsed(&bytes);
    let q = w.q2("q").unwrap();
    assert_eq!((q.rows, q.cols, q.data.as_slice()), (4, 8, &[1u8, 2, 3][..]));
    assert_eq!(w.singles("f").unwrap().data, vec![0x3f80_0000]);
    assert_eq!(w.bf16_as_singles("h").unwrap(), vec![0x3f80_0000, 0x4000_0000]);
    assert_eq!(w.dense("f").unwrap(), vec![0x3f80_0000]);
    assert_eq!(w.dense("h").unwrap(), vec![0x3f80_0000, 0x4000_0000]);
    assert!(w.dense("q").is_none() && w.q2("f").is_none() && w.singles("h").is_none());
}

#[test]
fn a_later_tensor_replaces_an_earlier_one() {
    let w = parsed(&file(&[("x", 1, 1), ("x", 2, 2)], &[]));
    assert_eq!(w.q2("x").unwrap().rows, 2);
}

#[test]
fn each_weight_error_has_its_input() {
    assert!(matches!(refused(&[]), WeightsError::UnexpectedEof));
    let e = refused(&[0x10, 0, 0, 0xab]);
    assert!(matches!(e, WeightsError::BadMagic(0xab00_0010)));
    assert_eq!(e.message().unwrap(), "bad magic: 0xab000010");
    let e = refused(&file(&[], &[Plain { name: b"f", dtype: 7, data: &[] }]));
    assert!(matches!(e, WeightsError::UnknownDtype(7)));
    assert_eq!(e.message().unwrap(), "unknown dtype: 7");
    let e = refused(&file(&[], &[Plain { name: &[0xff], dtype: 0, data: &[] }]));
    assert!(matches!(&e, WeightsError::BadName(b) if b.as_slice() == [0xff]));
    assert!(e.message().is_none());
    let mut bytes = file(&[], &[]);
    let last = bytes.len() - 1;
    bytes[last] = 0;
    let e = refused(&bytes);
    assert!(matches!(e, WeightsError::BadEndMagic));
    assert_eq!(e.message().unwrap(), "bad end magic");
    assert!(matches!(refused(&bytes[..last]), WeightsError::UnexpectedEof));
}

#[test]
fn rows_are_cut_and_padded() {
    assert_eq!(zero_pad(&[1, 2, 3, 4], 2, 2, 3, 0), vec![1, 2, 0, 3, 4, 0]);
    assert_eq!(zero_pad(&[1, 2, 3, 4], 2, 2, 1, 0), vec![1, 3]);
    assert_eq!(take_columns(&[1, 2, 3, 4, 5, 6], 2, 3, 1, 2), vec![2, 3, 5, 6]);
}

#[test]
fn images_are_enlarged() {
    assert_eq!(
        upsample_nearest_2x(&[1, 2], 1, 2, 1),
        vec![1, 1, 2, 2, 1, 1, 2, 2]
    );
    // Three columns hold one block of three and none of a second.
    assert_eq!(with_alpha(&[1, 2, 3, 4, 5, 6], 2), vec![1, 2, 3, 255, 4, 5, 6, 255]);
}

#[test]
fn windows_stay_inside() {
    assert_eq!(window(3, 3, 1, 1).len(), 9);
    assert_eq!(
        window(2, 2, 0, 0),
        vec![
            Tap { place: 4, point: 0 },
            Tap { place: 5, point: 1 },
            Tap { place: 7, point: 2 },
            Tap { place: 8, point: 3 },
        ]
    );
}

#[test]
fn axes_are_rotated_in_pairs() {
    let p = rotary_pairs(8, &[4, 4]);
    assert_eq!(p.len(), 4);
    assert_eq!(p[1], RotaryPair { at: 2, num: 2, den: 4, by_row: true });
    assert_eq!(p[2], RotaryPair { at: 4, num: 0, den: 4, by_row: false });
}

#[test]
fn noise_is_reproducible() {
    let long = latent_noise(42, 10);
    assert_eq!(latent_noise(42, 4), long[..4]);
    let mut state = 42u64.wrapping_mul(0x9E3779B97F4A7C15).wrapping_add(12345);
    state = state.wrapping_mul(0x9E3779B97F4A7C15);
    assert_eq!(long[0], (state >> 32) as u32);
    assert_ne!(latent_noise(43, 4), long[..4]);
}

#[test]
fn checksums_have_their_known_values() {
    assert_eq!(crc32(b"123456789"), 0xcbf4_3926);
    assert_eq!(crc32(b""), 0);
    let once = crc32_update(0xffff_ffff, b"123456789");
    let twice = crc32_update(crc32_update(0xffff_ffff, b"1234"), b"56789");
    assert_eq!(once, twice);
}

fn inflate(s: &[u8]) -> Vec<u8> {
    let mut out = Vec::new();
    let mut p = 0;
    loop {
        let n = s[p + 1] as usize + 256 * s[p + 2] as usize;
        let complement = s[p + 3] as usize + 256 * s[p + 4] as usize;
        assert_eq!(n + complement, 65535);
        out.extend_from_slice(&s[p + 5..p + 5 + n]);
        if s[p] == 1 {
            return out;
        }
        p += 5 + n;
    }
}

#[test]
fn packing_keeps_the_data() {
    for n in [1usize, 100, 65535, 65536, 140000] {
        let data: Vec<u8> = (0..n).map(|i| (i * 7 % 251) as u8).collect();
        assert_eq!(inflate(&deflate_raw(&data)), data);
    }
    let small = deflate_raw(b"a");
    assert_eq!(small, vec![1, 1, 0, 0xfe, 0xff, b'a', 0, 0x62, 0, 0x62]);
    assert_eq!(deflate_raw(b""), vec![0, 0, 0, 1]);
}

#[test]
fn an_image_file_has_its_parts() {
    let png = encode_png(&[1, 2, 3, 4, 5, 6, 7, 8], 1, 2).unwrap();
    assert_eq!(&png[..8], &[137, 80, 78, 71, 13, 10, 26, 10]);
    assert_eq!(&png[8..16], &[0, 0, 0, 13, b'I', b'H', b'D', b'R']);
    assert_eq!(&png[16..29], &[0, 0, 0, 2, 0, 0, 0, 1, 8, 6, 0, 0, 0]);
    assert_eq!(&png[37..41], b"IDAT");
    assert_eq!(&png[41..43], &[0x78, 0x01]);
    assert_eq!(inflate(&png[43..]), vec![0, 1, 2, 3, 4, 5, 6, 7, 8]);
    let end = png.len() - 12;
    assert_eq!(png[end - 4..end], crc32(&png[37..end - 4]).to_be_bytes());
    assert_eq!(&png[png.len() - 8..png.len() - 4], b"IEND");
}

#[test]
fn a_chunk_carries_the_check_value_of_name_and_data() {
    let mut out = vec![9];
    write_png_chunk(&mut out, b"IDAT", &[1, 2, 3]);
    let mut expected = vec![9, 0, 0, 0, 3];
    expected.extend_from_slice(b"IDAT");
    expected.extend_from_slice(&[1, 2, 3]);
    expected.extend_from_slice(&crc32(b"IDAT\x01\x02\x03").to_be_bytes());
    assert_eq!(out, expected);
    let mut end = Vec::new();
    write_png_chunk(&mut end, b"IEND", &[]);
    assert_eq!(end[8..], [0xae, 0x42, 0x60, 0x82]);
}

#[test]
fn enlarging_interpolates_between_neighbours() {
    let tap = |low, high, part| AxisTap { low, high, part };
    // Two points become four: at -1/4, 1/4, 3/4 and 5/4 of the way from the first to the second.
    assert_eq!(axis_taps(2, 4), vec![tap(0, 0, 0), tap(0, 1, 2), tap(0, 1, 6), tap(1, 1, 0)]);
    assert_eq!(axis_taps(3, 3), vec![tap(0, 0, 0), tap(1, 1, 0), tap(2, 2, 0)]);
    assert_eq!(axis_taps(1, 2), vec![tap(0, 0, 0); 2]);
    assert_eq!(axis_taps(4, 2), vec![tap(0, 1, 2), tap(2, 3, 2)]);
    assert!(axis_taps(5, 0).is_empty());
}

#[test]
fn dimensions_are_as_documented() {
    let v = VaeDecoder::new(16);
    assert_eq!((v.z_channels, v.ch, v.num_res_blocks), (16, 128, 2));
    assert_eq!(v.ch_mult, vec![1, 2, 4, 4]);
    let c = FluxConfig::default();
    assert_eq!(f32::from_bits(c.rope_theta_bits), 2000.0);
    assert_eq!(f32::from_bits(c.eps_bits), 1e-6);
    assert_eq!(c.axes_dims, vec![32; 4]);
    assert_eq!(latent_shape(1024, 512), (64, 32));
    let s = forward_shape(&c, 3072 * 4, 7680 * 3);
    assert_eq!((s.image_rows, s.seq_img, s.seq_txt), (96, 4, 3));
}

fn tiny() -> FluxConfig {
    FluxConfig { d_model: 4, n_heads: 1, head_dim: 4, ffn_dim: 8, ..FluxConfig::default() }
}

#[test]
fn a_block_projects_with_the_weights_it_has() {
    let to_q = FluxWeight::ToQ.name(3);
    assert_eq!(to_q, "transformer_blocks.3.attn.to_q");
    let w = parsed(&file(&[(&to_q, 4, 4)], &[]));
    let steps = plan_double_block(&tiny(), &w, 3, 2, 1);
    assert_eq!(
        steps[2],
        FluxStep::Project {
            weight: FluxWeight::ToQ,
            from: FluxBuf::ImageNormed,
            to: FluxBuf::QImage,
            batch: 2,
            width: 4
        }
    );
    assert_eq!(steps[4], FluxStep::Zero { to: FluxBuf::KImage, len: 8 });
    // Without feed-forward weights a block ends with its two modulations.
    assert!(matches!(
        steps.last().unwrap(),
        FluxStep::Modulate { stream: Stream::Text, shift: 3, scale: 4, .. }
    ));
    let other = plan_double_block(&tiny(), &w, 2, 2, 1);
    assert!(!other.iter().any(|s| matches!(s, FluxStep::Project { .. })));
}

#[test]
fn a_single_block_needs_its_joint_projection() {
    let name = FluxWeight::QkvMlp.name(0);
    assert_eq!(name, "single_transformer_blocks.0.attn.to_qkv_mlp_proj");
    let w = parsed(&file(&[(&name, 28, 4)], &[]));
    let steps = plan_single_block(&tiny(), &w, 0, 2, 1).unwrap();
    assert_eq!(
        steps[6],
        FluxStep::Columns {
            from: FluxBuf::Wide,
            to: FluxBuf::Up,
            rows: 3,
            width: 28,
            start: 20,
            len: 8
        }
    );
    assert!(plan_single_block(&tiny(), &w, 1, 2, 1).is_none());
    assert_eq!(plan_single_block(&tiny(), &w, 1, 0, 0), Some(vec![]));
    let narrow = parsed(&file(&[(&name, 27, 4)], &[]));
    assert!(plan_single_block(&tiny(), &narrow, 0, 2, 1).is_none());
}
