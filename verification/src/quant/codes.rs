//! The elements of quantised blocks.
//!
//! A quantised element is an integer code with integer multipliers, and one or two half-precision
//! factors that its block shares.  Its value is `q * (scale * d) - min * m`.
use vstd::prelude::*;

use crate::gguf::ggml::{block_bytes_of, block_size_of, GgmlDType};

verus! {

/// A quantised element: code, multipliers, and the bit patterns of the block's factors.
#[derive(Debug, Clone, Copy, PartialEq, Eq, Structural)]
pub struct Element {
    pub q: i32,
    pub scale: i32,
    pub min: i32,
    pub d: u16,
    pub m: u16,
}

/// The lower or upper four bits of a byte.
pub open spec fn nibble(b: u8, upper: bool) -> int {
    if upper {
        b as int / 16
    } else {
        b as int % 16
    }
}

/// Bits `2k` and `2k + 1` of a byte.
pub open spec fn pair(b: u8, k: int) -> int {
    if k == 0 {
        b as int % 4
    } else if k == 1 {
        b as int / 4 % 4
    } else if k == 2 {
        b as int / 16 % 4
    } else {
        b as int / 64
    }
}

/// Bit `k` of a byte.
pub open spec fn bit(b: u8, k: int) -> int {
    if k == 0 {
        b as int % 2
    } else if k == 1 {
        b as int / 2 % 2
    } else if k == 2 {
        b as int / 4 % 2
    } else if k == 3 {
        b as int / 8 % 2
    } else if k == 4 {
        b as int / 16 % 2
    } else if k == 5 {
        b as int / 32 % 2
    } else if k == 6 {
        b as int / 64 % 2
    } else {
        b as int / 128
    }
}

/// A byte as a two's-complement number.
pub open spec fn signed(b: u8) -> int {
    if b < 128 {
        b as int
    } else {
        b - 256
    }
}

/// The half-precision pattern at `p`.
pub open spec fn half_at(s: Seq<u8>, p: int) -> u16 {
    (s[p] + 256 * s[p + 1]) as u16
}

fn get_nibble(b: u8, upper: bool) -> (r: i32)
    ensures
        r == nibble(b, upper),
        0 <= r < 16,
{
    if upper {
        (b / 16) as i32
    } else {
        (b % 16) as i32
    }
}

fn get_pair(b: u8, k: usize) -> (r: i32)
    requires
        k < 4,
    ensures
        r == pair(b, k as int),
        0 <= r < 4,
{
    if k == 0 {
        (b % 4) as i32
    } else if k == 1 {
        (b / 4 % 4) as i32
    } else if k == 2 {
        (b / 16 % 4) as i32
    } else {
        (b / 64) as i32
    }
}

fn get_bit(b: u8, k: usize) -> (r: i32)
    requires
        k < 8,
    ensures
        r == bit(b, k as int),
        0 <= r < 2,
{
    if k == 0 {
        (b % 2) as i32
    } else if k == 1 {
        (b / 2 % 2) as i32
    } else if k == 2 {
        (b / 4 % 2) as i32
    } else if k == 3 {
        (b / 8 % 2) as i32
    } else if k == 4 {
        (b / 16 % 2) as i32
    } else if k == 5 {
        (b / 32 % 2) as i32
    } else if k == 6 {
        (b / 64 % 2) as i32
    } else {
        (b / 128) as i32
    }
}

/// A byte as a two's-complement number.
pub fn get_signed(b: u8) -> (r: i32)
    ensures
        r == signed(b),
        -128 <= r < 128,
{
    if b < 128 {
        b as i32
    } else {
        b as i32 - 256
    }
}

/// The half-precision pattern at `p`.
pub fn get_half(s: &[u8], p: usize) -> (r: u16)
    requires
        p + 2 <= s@.len(),
    ensures
        r == half_at(s@, p as int),
{
    assert(p + 2 <= s.len());
    s[p] as u16 + 256 * s[p + 1] as u16
}

/// These names for bits agree with shifting and masking.
pub proof fn law_bits_are_shifts(b: u8)
    ensures
        nibble(b, false) == b & 0x0f,
        nibble(b, true) == b >> 4,
        pair(b, 0) == b & 3,
        pair(b, 1) == (b >> 2) & 3,
        pair(b, 2) == (b >> 4) & 3,
        pair(b, 3) == (b >> 6) & 3,
        bit(b, 0) == b & 1,
        bit(b, 1) == (b >> 1) & 1,
        bit(b, 2) == (b >> 2) & 1,
        bit(b, 3) == (b >> 3) & 1,
        bit(b, 4) == (b >> 4) & 1,
        bit(b, 5) == (b >> 5) & 1,
        bit(b, 6) == (b >> 6) & 1,
        bit(b, 7) == (b >> 7) & 1,
{
    assert(b & 0x0f == b % 16 && b >> 4 == b / 16 && b & 3 == b % 4 && (b >> 2) & 3 == b / 4 % 4
        && (b >> 4) & 3 == b / 16 % 4 && (b >> 6) & 3 == b / 64) by (bit_vector);
    assert(b & 1 == b % 2 && (b >> 1) & 1 == b / 2 % 2 && (b >> 2) & 1 == b / 4 % 2 && (b >> 3) & 1
        == b / 8 % 2 && (b >> 4) & 1 == b / 16 % 2 && (b >> 5) & 1 == b / 32 % 2 && (b >> 6) & 1
        == b / 64 % 2 && (b >> 7) & 1 == b / 128) by (bit_vector);
}

/// The formats whose elements are codes with factors.
pub open spec fn has_codes(d: GgmlDType) -> bool {
    d is Q8_0 || d is Q4_0 || d is Q4_1 || d is Q5_0 || d is Q5_1 || d is Q4_K || d is Q2_0 || d is Q1_0 || d is Q1_0_G128
        || d is Q2_K || d is Q3_K || d is Q5_K || d is Q6_K
}

/// Eight bits for a code and one scale.
pub open spec fn q8_0_element(s: Seq<u8>, b: int, i: int) -> Element {
    let p = 34 * b;
    Element { q: signed(s[p + 2 + i]) as i32, scale: 1, min: 0, d: half_at(s, p), m: 0 }
}

/// Four bits for a code from -8 to 7, two to a byte.
pub open spec fn q4_0_element(s: Seq<u8>, b: int, i: int) -> Element {
    let p = 18 * b;
    Element {
        q: (nibble(s[p + 2 + i / 2], i % 2 == 1) - 8) as i32,
        scale: 1,
        min: 0,
        d: half_at(s, p),
        m: 0,
    }
}

/// Four bits for a code, two to a byte, and an offset.
pub open spec fn q4_1_element(s: Seq<u8>, b: int, i: int) -> Element {
    let p = 20 * b;
    Element {
        q: nibble(s[p + 4 + i / 2], i % 2 == 1) as i32,
        scale: 1,
        min: 1,
        d: half_at(s, p),
        m: half_at(s, p + 2),
    }
}

/// Five bits for a code from -16 to 15, the fifth apart.
pub open spec fn q5_0_element(s: Seq<u8>, b: int, i: int) -> Element {
    let p = 22 * b;
    Element {
        q: (nibble(s[p + 6 + i / 2], i % 2 == 1) + 16 * bit(s[p + 2 + i / 8], i % 8) - 16) as i32,
        scale: 1,
        min: 0,
        d: half_at(s, p),
        m: 0,
    }
}

/// Five bits for a code, the fifth apart, and an offset.
pub open spec fn q5_1_element(s: Seq<u8>, b: int, i: int) -> Element {
    let p = 24 * b;
    Element {
        q: (nibble(s[p + 8 + i / 2], i % 2 == 1) + 16 * bit(s[p + 4 + i / 8], i % 8)) as i32,
        scale: 1,
        min: 1,
        d: half_at(s, p),
        m: half_at(s, p + 2),
    }
}

/// Number `k` of a run of six-bit numbers from `t` on, four to three bytes.
pub open spec fn six_bits(s: Seq<u8>, t: int, k: int) -> int {
    let u = t + k / 4 * 3;
    if k % 4 == 0 {
        s[u] as int % 64
    } else if k % 4 == 1 {
        s[u] as int / 64 + 4 * (s[u + 1] as int % 16)
    } else if k % 4 == 2 {
        s[u + 1] as int / 16 + 16 * (s[u + 2] as int % 4)
    } else {
        s[u + 2] as int / 4
    }
}

/// Four bits for a code; each 32 elements have a scale and an offset of six bits.
pub open spec fn q4_k_element(s: Seq<u8>, b: int, i: int) -> Element {
    let p = 144 * b;
    Element {
        q: nibble(s[p + 16 + i / 2], i % 2 == 1) as i32,
        scale: six_bits(s, p + 4, i / 32 * 2) as i32,
        min: six_bits(s, p + 4, i / 32 * 2 + 1) as i32,
        d: half_at(s, p),
        m: half_at(s, p + 2),
    }
}

/// Two bits for a code from -1 to 2, four to a byte.
pub open spec fn q2_0_element(s: Seq<u8>, b: int, i: int) -> Element {
    let p = 34 * b;
    Element {
        q: (pair(s[p + 2 + i / 4], i % 4) - 1) as i32,
        scale: 1,
        min: 0,
        d: half_at(s, p),
        m: 0,
    }
}

/// One bit for a code: one for plus, zero for minus.
pub open spec fn sign_code(b: u8, k: int) -> int {
    2 * bit(b, k) - 1
}

/// One bit for a sign, in blocks of 128 elements.
pub open spec fn q1_element(s: Seq<u8>, b: int, i: int) -> Element {
    let p = 18 * b;
    Element {
        q: sign_code(s[p + 2 + i / 8], i % 8) as i32,
        scale: 1,
        min: 0,
        d: half_at(s, p),
        m: 0,
    }
}

/// One bit for a sign, in blocks of 32 elements and 6 bytes.
pub open spec fn q1_small_element(s: Seq<u8>, b: int, i: int) -> Element {
    let p = 6 * b;
    Element {
        q: sign_code(s[p + 2 + i / 8], i % 8) as i32,
        scale: 1,
        min: 0,
        d: half_at(s, p),
        m: 0,
    }
}

/// Two bits for a code; each 16 elements have a scale and an offset of four bits.
pub open spec fn q2_k_element(s: Seq<u8>, b: int, i: int) -> Element {
    let p = 84 * b;
    Element {
        q: pair(s[p + 20 + i / 4], i % 4) as i32,
        scale: nibble(s[p + 4 + i / 16], false) as i32,
        min: nibble(s[p + 4 + i / 16], true) as i32,
        d: half_at(s, p),
        m: half_at(s, p + 2),
    }
}

/// Which bit of its byte holds the bit apart of element `i`.  A byte serves two groups of four
/// elements: the first has bits 2, 6, 0 and 4, the second the bits next to them.
pub open spec fn high_place(i: int) -> int {
    (if i % 4 < 2 {
        i % 4 * 4 + 2
    } else {
        (i % 4 - 2) * 4
    }) + i / 4 % 2
}

/// The pair of bits of element `i` among bytes from `t` on, zero behind the end of the data.
pub open spec fn pair_or_zero(s: Seq<u8>, t: int, i: int) -> int {
    if t + i / 4 < s.len() {
        pair(s[t + i / 4], i % 4)
    } else {
        0
    }
}

/// Three bits for a code from -4 to 3, the third apart; each 16 elements have a scale of eight bits.
///
/// A factor, 16 scales, 32 bytes with the third bits and 64 bytes with the two low ones stand one
/// behind the other.  That is four bytes more than the 110 of a block: the low bits of the last 16
/// elements are read behind the block, and where the data ends there, they are zero.
pub open spec fn q3_k_element(s: Seq<u8>, b: int, i: int) -> Element {
    let p = 110 * b;
    let v = pair_or_zero(s, p + 50, i) + 4 * bit(s[p + 18 + i / 8], high_place(i));
    Element {
        q: (if v >= 4 {
            v - 8
        } else {
            v
        }) as i32,
        scale: s[p + 2 + i / 16] as i32,
        min: 0,
        d: half_at(s, p),
        m: 0,
    }
}

/// Five bits for a code, the fifth apart; each 16 elements have a scale and an offset of four bits.
///
/// Two factors, 16 bytes of scales and offsets and 32 bytes with the fifth bits leave 124 of the 176
/// bytes of a block for low bits, two elements to a byte: the last eight elements have none, which
/// count as zero.
pub open spec fn q5_k_element(s: Seq<u8>, b: int, i: int) -> Element {
    let p = 176 * b;
    let low = if i < 248 {
        nibble(s[p + 52 + i / 2], i % 2 == 1)
    } else {
        0
    };
    Element {
        q: (low + 16 * bit(s[p + 20 + i / 8], high_place(i))) as i32,
        scale: nibble(s[p + 4 + i / 16], false) as i32,
        min: nibble(s[p + 4 + i / 16], true) as i32,
        d: half_at(s, p),
        m: half_at(s, p + 2),
    }
}

/// Six bits for a code from -32 to 31, the two upper ones apart; each 16 elements have a signed
/// scale of eight bits.
pub open spec fn q6_k_element(s: Seq<u8>, b: int, i: int) -> Element {
    let p = 210 * b;
    Element {
        q: (nibble(s[p + i / 2], i % 2 == 1) + 16 * pair(s[p + 128 + i / 4], i % 4) - 32) as i32,
        scale: signed(s[p + 192 + i / 16]) as i32,
        min: 0,
        d: half_at(s, p + 208),
        m: 0,
    }
}

/// Element `i` of a run of blocks.
pub open spec fn element_of(d: GgmlDType, s: Seq<u8>, i: int) -> Element {
    let size = block_size_of(d) as int;
    let (b, k) = (i / size, i % size);
    match d {
        GgmlDType::Q8_0 => q8_0_element(s, b, k),
        GgmlDType::Q4_0 => q4_0_element(s, b, k),
        GgmlDType::Q4_1 => q4_1_element(s, b, k),
        GgmlDType::Q5_0 => q5_0_element(s, b, k),
        GgmlDType::Q5_1 => q5_1_element(s, b, k),
        GgmlDType::Q4_K => q4_k_element(s, b, k),
        GgmlDType::Q2_0 => q2_0_element(s, b, k),
        GgmlDType::Q1_0 | GgmlDType::Q1_0_G128 => q1_element(s, b, k),
        GgmlDType::Q2_K => q2_k_element(s, b, k),
        GgmlDType::Q3_K => q3_k_element(s, b, k),
        GgmlDType::Q5_K => q5_k_element(s, b, k),
        _ => q6_k_element(s, b, k),
    }
}

fn simple(q: i32, d: u16) -> (r: Element)
    ensures
        r == (Element { q, scale: 1, min: 0, d, m: 0 }),
{
    Element { q, scale: 1, min: 0, d, m: 0 }
}

fn get_six_bits(s: &[u8], t: usize, k: usize) -> (r: i32)
    requires
        k < 16,
        t + 12 <= s@.len(),
    ensures
        r == six_bits(s@, t as int, k as int),
        0 <= r < 64,
{
    assert(t + 12 <= s.len());
    let u: usize = t + k / 4 * 3;
    if k % 4 == 0 {
        (s[u] % 64) as i32
    } else if k % 4 == 1 {
        (s[u] / 64) as i32 + 4 * (s[u + 1] % 16) as i32
    } else if k % 4 == 2 {
        (s[u + 1] / 16) as i32 + 16 * (s[u + 2] % 4) as i32
    } else {
        (s[u + 2] / 4) as i32
    }
}

fn get_high_place(i: usize) -> (r: usize)
    ensures
        r == high_place(i as int),
        r < 8,
{
    let k: usize = i % 4;
    let first: usize = if k < 2 { k * 4 + 2 } else { (k - 2) * 4 };
    first + i / 4 % 2
}

/// Element `k` of block `b` of 256 elements, for the formats with such blocks.
fn wide_element(d: GgmlDType, s: &[u8], b: usize, k: usize) -> (r: Element)
    requires
        d is Q4_K || d is Q2_K || d is Q3_K || d is Q5_K || d is Q6_K,
        k < 256,
        block_bytes_of(d) * b + block_bytes_of(d) <= s@.len(),
    ensures
        r == match d {
            GgmlDType::Q4_K => q4_k_element(s@, b as int, k as int),
            GgmlDType::Q2_K => q2_k_element(s@, b as int, k as int),
            GgmlDType::Q3_K => q3_k_element(s@, b as int, k as int),
            GgmlDType::Q5_K => q5_k_element(s@, b as int, k as int),
            _ => q6_k_element(s@, b as int, k as int),
        },
{
    assert(block_bytes_of(d) * b + block_bytes_of(d) <= s.len());
    let upper = k % 2 == 1;
    match d {
        GgmlDType::Q4_K => {
            let p: usize = 144 * b;
            Element {
                q: get_nibble(s[p + 16 + k / 2], upper),
                scale: get_six_bits(s, p + 4, k / 32 * 2),
                min: get_six_bits(s, p + 4, k / 32 * 2 + 1),
                d: get_half(s, p),
                m: get_half(s, p + 2),
            }
        },
        GgmlDType::Q2_K => {
            let p: usize = 84 * b;
            let c: u8 = s[p + 4 + k / 16];
            Element {
                q: get_pair(s[p + 20 + k / 4], k % 4),
                scale: get_nibble(c, false),
                min: get_nibble(c, true),
                d: get_half(s, p),
                m: get_half(s, p + 2),
            }
        },
        GgmlDType::Q3_K => {
            let p: usize = 110 * b;
            let t: usize = p + 50 + k / 4;
            let low: i32 = if t < s.len() { get_pair(s[t], k % 4) } else { 0 };
            let v: i32 = low + 4 * get_bit(s[p + 18 + k / 8], get_high_place(k));
            Element {
                q: if v >= 4 {
                    v - 8
                } else {
                    v
                },
                scale: s[p + 2 + k / 16] as i32,
                min: 0,
                d: get_half(s, p),
                m: 0,
            }
        },
        GgmlDType::Q5_K => {
            let p: usize = 176 * b;
            let c: u8 = s[p + 4 + k / 16];
            let low: i32 = if k < 248 { get_nibble(s[p + 52 + k / 2], upper) } else { 0 };
            Element {
                q: low + 16 * get_bit(s[p + 20 + k / 8], get_high_place(k)),
                scale: get_nibble(c, false),
                min: get_nibble(c, true),
                d: get_half(s, p),
                m: get_half(s, p + 2),
            }
        },
        _ => {
            let p: usize = 210 * b;
            let q: i32 = get_nibble(s[p + k / 2], upper) + 16 * get_pair(s[p + 128 + k / 4], k % 4)
                - 32;
            Element {
                q,
                scale: get_signed(s[p + 192 + k / 16]),
                min: 0,
                d: get_half(s, p + 208),
                m: 0,
            }
        },
    }
}

/// Element `i` of a run of blocks.
pub fn element(d: GgmlDType, s: &[u8], i: usize) -> (r: Element)
    requires
        has_codes(d),
        block_bytes_of(d) * (i as int / block_size_of(d) as int) + block_bytes_of(d) <= s@.len(),
    ensures
        r == element_of(d, s@, i as int),
{
    assert(s@.len() == s.len());
    match d {
        GgmlDType::Q8_0 => {
            let (b, k): (usize, usize) = (i / 32, i % 32);
            let p: usize = 34 * b;
            simple(get_signed(s[p + 2 + k]), get_half(s, p))
        },
        GgmlDType::Q4_0 => {
            let (b, k): (usize, usize) = (i / 32, i % 32);
            let p: usize = 18 * b;
            simple(get_nibble(s[p + 2 + k / 2], k % 2 == 1) - 8, get_half(s, p))
        },
        GgmlDType::Q4_1 => {
            let (b, k): (usize, usize) = (i / 32, i % 32);
            let p: usize = 20 * b;
            let q: i32 = get_nibble(s[p + 4 + k / 2], k % 2 == 1);
            Element { q, scale: 1, min: 1, d: get_half(s, p), m: get_half(s, p + 2) }
        },
        GgmlDType::Q5_0 => {
            let (b, k): (usize, usize) = (i / 32, i % 32);
            let p: usize = 22 * b;
            let q: i32 = get_nibble(s[p + 6 + k / 2], k % 2 == 1) + 16 * get_bit(
                s[p + 2 + k / 8],
                k % 8,
            );
            simple(q - 16, get_half(s, p))
        },
        GgmlDType::Q5_1 => {
            let (b, k): (usize, usize) = (i / 32, i % 32);
            let p: usize = 24 * b;
            let q: i32 = get_nibble(s[p + 8 + k / 2], k % 2 == 1) + 16 * get_bit(
                s[p + 4 + k / 8],
                k % 8,
            );
            Element { q, scale: 1, min: 1, d: get_half(s, p), m: get_half(s, p + 2) }
        },
        GgmlDType::Q2_0 => {
            let (b, k): (usize, usize) = (i / 128, i % 128);
            let p: usize = 34 * b;
            simple(get_pair(s[p + 2 + k / 4], k % 4) - 1, get_half(s, p))
        },
        GgmlDType::Q1_0 | GgmlDType::Q1_0_G128 => {
            let (b, k): (usize, usize) = (i / 128, i % 128);
            let p: usize = 18 * b;
            simple(2 * get_bit(s[p + 2 + k / 8], k % 8) - 1, get_half(s, p))
        },
        _ => wide_element(d, s, i / 256, i % 256),
    }
}

/// Element `i` of a run of six-byte blocks of 32 signs.
pub fn small_sign_element(s: &[u8], i: usize) -> (r: Element)
    requires
        6 * (i as int / 32) + 6 <= s@.len(),
    ensures
        r == q1_small_element(s@, i as int / 32, i as int % 32),
{
    assert(s@.len() == s.len());
    let (b, k): (usize, usize) = (i / 32, i % 32);
    let p: usize = 6 * b;
    simple(2 * get_bit(s[p + 2 + k / 8], k % 8) - 1, get_half(s, p))
}

/// Codes stay within the range of their format.
pub proof fn law_codes_are_bounded(d: GgmlDType, s: Seq<u8>, i: int)
    requires
        has_codes(d),
        0 <= i,
    ensures
        d is Q8_0 ==> -128 <= element_of(d, s, i).q <= 127,
        d is Q4_0 ==> -8 <= element_of(d, s, i).q <= 7,
        d is Q4_1 ==> 0 <= element_of(d, s, i).q <= 15,
        d is Q5_0 ==> -16 <= element_of(d, s, i).q <= 15,
        d is Q5_1 ==> 0 <= element_of(d, s, i).q <= 31,
        d is Q4_K ==> 0 <= element_of(d, s, i).q <= 15 && 0 <= element_of(d, s, i).scale <= 63
            && 0 <= element_of(d, s, i).min <= 63,
        d is Q2_0 ==> -1 <= element_of(d, s, i).q <= 2,
        d is Q1_0 || d is Q1_0_G128 ==> element_of(d, s, i).q == 1 || element_of(d, s, i).q == -1,
        d is Q2_K ==> 0 <= element_of(d, s, i).q <= 3,
        d is Q3_K ==> -4 <= element_of(d, s, i).q <= 3,
        d is Q5_K ==> 0 <= element_of(d, s, i).q <= 31 && 0 <= element_of(d, s, i).scale <= 15
            && 0 <= element_of(d, s, i).min <= 15,
        d is Q6_K ==> -32 <= element_of(d, s, i).q <= 31,
{
}

/// No two elements of a block share their bit apart.
pub proof fn law_bits_apart_are_not_shared(i: int, j: int)
    requires
        0 <= i < j < 256,
    ensures
        i / 8 != j / 8 || high_place(i) != high_place(j),
        0 <= high_place(i) < 8,
{
}

} // verus!
