//! The formats of quantised weights, bit by bit.
//!
//! A byte is named by its place in the data: element `i` of a format with blocks of `n` elements and
//! `m` bytes belongs to the block that begins at byte `m * (i / n)`.
use vstd::arithmetic::div_mod::lemma_mod_mod;
use vstd::prelude::*;

use crate::gguf::ggml::{block_bytes_of, block_size_of, GgmlDType};
use crate::quant::codes::{
    bit, element_of, half_at, law_bits_are_shifts, nibble, pair, q1_small_element, Element,
};
use crate::quant::dot::{act_codes, dot_of, row_codes, small_term_of, term_of};
use crate::quant::expand::expanded_len;

verus! {

/// Two bytes, the lower one first.
pub open spec fn two_bytes(s: Seq<u8>, p: int) -> u16 {
    s[p] as u16 | (s[p + 1] as u16) << 8
}

proof fn lemma_half(s: Seq<u8>, p: int)
    ensures
        half_at(s, p) == two_bytes(s, p),
{
    let (a, b) = (s[p], s[p + 1]);
    assert(a as u16 | (b as u16) << 8 == a as u16 + 256 * (b as u16)) by (bit_vector);
}

/// The lower half of a byte for an element with an even number, the upper half for its neighbour.
pub open spec fn half_byte(b: u8, i: int) -> int {
    if i % 2 == 0 {
        (b & 0x0f) as int
    } else {
        (b >> 4) as int
    }
}

/// Bit `k` of a byte.
pub open spec fn bit_of(b: u8, k: int) -> int {
    ((b >> (k as u8)) & 1) as int
}

/// Two bits of a byte, `k` times two bits from its lower end.
pub open spec fn two_bits_of(b: u8, k: int) -> int {
    ((b >> ((2 * k) as u8)) & 3) as int
}

proof fn lemma_half_byte(b: u8, i: int)
    ensures
        nibble(b, i % 2 == 1) == half_byte(b, i),
{
    law_bits_are_shifts(b);
}

proof fn lemma_bit_of(b: u8, k: int)
    requires
        0 <= k < 8,
    ensures
        bit(b, k) == bit_of(b, k),
{
    law_bits_are_shifts(b);
    assert(b >> 0 == b) by (bit_vector);
}

proof fn lemma_two_bits_of(b: u8, k: int)
    requires
        0 <= k < 4,
    ensures
        pair(b, k) == two_bits_of(b, k),
{
    law_bits_are_shifts(b);
    assert(b >> 0 == b) by (bit_vector);
}

proof fn lemma_places(i: int)
    ensures
        i % 32 % 2 == i % 2,
        i % 32 % 8 == i % 8,
        i % 128 % 4 == i % 4,
        i % 128 % 8 == i % 8,
        i % 256 % 2 == i % 2,
        i % 256 % 4 == i % 4,
        i % 256 % 8 == i % 8,
        0 <= i % 32 < 32,
        0 <= i % 128 < 128,
        0 <= i % 256 < 256,
{
    lemma_mod_mod(i, 2, 16);
    lemma_mod_mod(i, 8, 4);
    lemma_mod_mod(i, 4, 32);
    lemma_mod_mod(i, 8, 16);
    lemma_mod_mod(i, 2, 128);
    lemma_mod_mod(i, 4, 64);
    lemma_mod_mod(i, 8, 32);
}

/// A byte read as a signed number.
pub open spec fn is_signed_byte(q: int, b: u8) -> bool {
    -128 <= q <= 127 && (q == b || q == b - 256)
}

/// Eight bits: a factor, then 32 signed bytes.
pub proof fn law_format_q8_0(s: Seq<u8>, i: int)
    requires
        0 <= i,
    ensures
        ({
            let (e, p) = (element_of(GgmlDType::Q8_0, s, i), 34 * (i / 32));
            &&& is_signed_byte(e.q as int, s[p + 2 + i % 32])
            &&& e == (Element { q: e.q, scale: 1, min: 0, d: two_bytes(s, p), m: 0 })
        }),
{
    lemma_half(s, 34 * (i / 32));
}

/// Four bits: a factor, then 16 bytes of two codes each, eight too great.
pub proof fn law_format_q4_0(s: Seq<u8>, i: int)
    requires
        0 <= i,
    ensures
        ({
            let (e, p) = (element_of(GgmlDType::Q4_0, s, i), 18 * (i / 32));
            &&& e.q == half_byte(s[p + 2 + i % 32 / 2], i) - 8
            &&& e == (Element { q: e.q, scale: 1, min: 0, d: two_bytes(s, p), m: 0 })
        }),
{
    let p = 18 * (i / 32);
    lemma_half(s, p);
    lemma_half_byte(s[p + 2 + i % 32 / 2], i % 32);
    lemma_places(i);
}

/// Four bits: a factor, an offset, then 16 bytes of two codes each.
pub proof fn law_format_q4_1(s: Seq<u8>, i: int)
    requires
        0 <= i,
    ensures
        ({
            let (e, p) = (element_of(GgmlDType::Q4_1, s, i), 20 * (i / 32));
            &&& e.q == half_byte(s[p + 4 + i % 32 / 2], i)
            &&& e == (Element {
                q: e.q,
                scale: 1,
                min: 1,
                d: two_bytes(s, p),
                m: two_bytes(s, p + 2),
            })
        }),
{
    let p = 20 * (i / 32);
    lemma_half(s, p);
    lemma_half(s, p + 2);
    lemma_half_byte(s[p + 4 + i % 32 / 2], i % 32);
    lemma_places(i);
}

/// Five bits: a factor, four bytes with a bit for each element, then 16 bytes of two codes each,
/// sixteen too great.
#[verifier::spinoff_prover]
#[verifier::rlimit(40)]
pub proof fn law_format_q5_0(s: Seq<u8>, i: int)
    requires
        0 <= i,
    ensures
        ({
            let (e, p) = (element_of(GgmlDType::Q5_0, s, i), 22 * (i / 32));
            &&& e.q == half_byte(s[p + 6 + i % 32 / 2], i) + 16 * bit_of(
                s[p + 2 + i % 32 / 8],
                i % 8,
            ) - 16
            &&& e == (Element { q: e.q, scale: 1, min: 0, d: two_bytes(s, p), m: 0 })
        }),
{
    let p = 22 * (i / 32);
    lemma_half(s, p);
    lemma_half_byte(s[p + 6 + i % 32 / 2], i % 32);
    lemma_bit_of(s[p + 2 + i % 32 / 8], i % 8);
    lemma_places(i);
}

/// Five bits: a factor, an offset, four bytes with a bit for each element, then 16 bytes of two codes
/// each.
#[verifier::spinoff_prover]
#[verifier::rlimit(40)]
pub proof fn law_format_q5_1(s: Seq<u8>, i: int)
    requires
        0 <= i,
    ensures
        ({
            let (e, p) = (element_of(GgmlDType::Q5_1, s, i), 24 * (i / 32));
            &&& e.q == half_byte(s[p + 8 + i % 32 / 2], i) + 16 * bit_of(
                s[p + 4 + i % 32 / 8],
                i % 8,
            )
            &&& e == (Element {
                q: e.q,
                scale: 1,
                min: 1,
                d: two_bytes(s, p),
                m: two_bytes(s, p + 2),
            })
        }),
{
    let p = 24 * (i / 32);
    lemma_half(s, p);
    lemma_half(s, p + 2);
    lemma_half_byte(s[p + 8 + i % 32 / 2], i % 32);
    lemma_bit_of(s[p + 4 + i % 32 / 8], i % 8);
    lemma_places(i);
}

/// Two bits: a factor, then 32 bytes of four codes each, one too great.
pub proof fn law_format_q2_0(s: Seq<u8>, i: int)
    requires
        0 <= i,
    ensures
        ({
            let (e, p) = (element_of(GgmlDType::Q2_0, s, i), 34 * (i / 128));
            &&& e.q == two_bits_of(s[p + 2 + i % 128 / 4], i % 4) - 1
            &&& e == (Element { q: e.q, scale: 1, min: 0, d: two_bytes(s, p), m: 0 })
        }),
{
    let p = 34 * (i / 128);
    lemma_half(s, p);
    lemma_two_bits_of(s[p + 2 + i % 128 / 4], i % 4);
    lemma_places(i);
}

/// One bit: a factor, then 16 bytes of eight signs each, a set bit for plus.
pub proof fn law_format_q1_0(s: Seq<u8>, i: int)
    requires
        0 <= i,
    ensures
        ({
            let (e, p) = (element_of(GgmlDType::Q1_0_G128, s, i), 18 * (i / 128));
            &&& e.q == if bit_of(s[p + 2 + i % 128 / 8], i % 8) == 1 {
                1int
            } else {
                -1
            }
            &&& e == (Element { q: e.q, scale: 1, min: 0, d: two_bytes(s, p), m: 0 })
            &&& element_of(GgmlDType::Q1_0, s, i) == e
        }),
{
    let p = 18 * (i / 128);
    let b = s[p + 2 + i % 128 / 8];
    lemma_half(s, p);
    lemma_bit_of(b, i % 8);
    lemma_places(i);
    assert(0 <= bit(b, i % 8) <= 1);
}

/// One bit in blocks of 32: a factor, then four bytes of eight signs each.
pub proof fn law_format_small_signs(s: Seq<u8>, b: int, k: int)
    requires
        0 <= k < 32,
    ensures
        ({
            let (e, p) = (q1_small_element(s, b, k), 6 * b);
            &&& e.q == if bit_of(s[p + 2 + k / 8], k % 8) == 1 {
                1int
            } else {
                -1
            }
            &&& e == (Element { q: e.q, scale: 1, min: 0, d: two_bytes(s, p), m: 0 })
        }),
{
    let byte = s[6 * b + 2 + k / 8];
    lemma_half(s, 6 * b);
    lemma_bit_of(byte, k % 8);
    assert(0 <= bit(byte, k % 8) <= 1);
}

/// Four bits with sub-blocks of 32: a factor for scales, one for offsets, twelve bytes in which three
/// hold scale and offset of one sub-block and then of the next, six bits each, then 128 bytes of two
/// codes each.
#[verifier::spinoff_prover]
#[verifier::rlimit(40)]
pub proof fn law_format_q4_k(s: Seq<u8>, i: int)
    requires
        0 <= i,
    ensures
        ({
            let (e, p, j) = (element_of(GgmlDType::Q4_K, s, i), 144 * (i / 256), i % 256 / 32);
            let t = p + 4 + 3 * (j / 2);
            let (s0, s1, s2) = (s[t], s[t + 1], s[t + 2]);
            &&& e.q == half_byte(s[p + 16 + i % 256 / 2], i)
            &&& e.scale == if j % 2 == 0 {
                s0 & 0x3f
            } else {
                (s1 >> 4) | ((s2 & 3) << 4)
            }
            &&& e.min == if j % 2 == 0 {
                (s0 >> 6) | ((s1 & 0x0f) << 2)
            } else {
                s2 >> 2
            }
            &&& e.d == two_bytes(s, p)
            &&& e.m == two_bytes(s, p + 2)
        }),
{
    let (p, j) = (144 * (i / 256), i % 256 / 32);
    lemma_half(s, p);
    lemma_half(s, p + 2);
    lemma_half_byte(s[p + 16 + i % 256 / 2], i % 256);
    lemma_places(i);
    let t = p + 4 + 3 * (j / 2);
    let (s0, s1, s2) = (s[t], s[t + 1], s[t + 2]);
    assert(s0 & 0x3f == s0 % 64 && (s1 >> 4) | ((s2 & 3) << 4) == s1 / 16 + 16 * (s2 % 4))
        by (bit_vector);
    assert((s0 >> 6) | ((s1 & 0x0f) << 2) == s0 / 64 + 4 * (s1 % 16) && s2 >> 2 == s2 / 4)
        by (bit_vector);
    assert(j * 2 / 4 == j / 2 && (j * 2 + 1) / 4 == j / 2);
    assert(j % 2 == 0 ==> j * 2 % 4 == 0 && (j * 2 + 1) % 4 == 1);
    assert(j % 2 == 1 ==> j * 2 % 4 == 2 && (j * 2 + 1) % 4 == 3);
}

/// Two bits with sub-blocks of 16: two factors, 16 bytes with a scale in the lower half and an offset
/// in the upper one, then 64 bytes of four codes each.
pub proof fn law_format_q2_k(s: Seq<u8>, i: int)
    requires
        0 <= i,
    ensures
        ({
            let (e, p, c) = (
                element_of(GgmlDType::Q2_K, s, i),
                84 * (i / 256),
                s[84 * (i / 256) + 4 + i % 256 / 16],
            );
            &&& e.q == two_bits_of(s[p + 20 + i % 256 / 4], i % 4)
            &&& e.scale == c & 0x0f
            &&& e.min == c >> 4
            &&& e.d == two_bytes(s, p)
            &&& e.m == two_bytes(s, p + 2)
        }),
{
    let p = 84 * (i / 256);
    lemma_half(s, p);
    lemma_half(s, p + 2);
    lemma_two_bits_of(s[p + 20 + i % 256 / 4], i % 4);
    law_bits_are_shifts(s[p + 4 + i % 256 / 16]);
    lemma_places(i);
}

/// Which bit of its byte holds the bit apart of an element, in the order of the elements of a byte.
pub open spec fn mask_bit(k: int) -> int {
    seq![2int, 6, 0, 4, 3, 7, 1, 5][k]
}

/// Three bits with sub-blocks of 16: a factor, 16 bytes of scales, 32 bytes with a bit for each
/// element, then bytes of two low bits each.  The three bits are a number with a sign.
pub proof fn law_format_q3_k(s: Seq<u8>, i: int)
    requires
        0 <= i,
    ensures
        ({
            let (e, p, k) = (element_of(GgmlDType::Q3_K, s, i), 110 * (i / 256), i % 256);
            let low = if p + 50 + k / 4 < s.len() {
                two_bits_of(s[p + 50 + k / 4], i % 4)
            } else {
                0
            };
            let high = bit_of(s[p + 18 + k / 8], mask_bit(i % 8));
            &&& e.q == low - 4 * high
            &&& e == (Element {
                q: e.q,
                scale: s[p + 2 + k / 16] as i32,
                min: 0,
                d: two_bytes(s, p),
                m: 0,
            })
        }),
{
    let (p, k) = (110 * (i / 256), i % 256);
    lemma_half(s, p);
    if p + 50 + k / 4 < s.len() {
        lemma_two_bits_of(s[p + 50 + k / 4], i % 4);
    }
    let b = s[p + 18 + k / 8];
    lemma_places(i);
    assert(crate::quant::codes::high_place(k) == mask_bit(k % 8));
    lemma_bit_of(b, mask_bit(i % 8));
    assert(0 <= bit(b, mask_bit(i % 8)) <= 1);
}

/// Five bits with sub-blocks of 16: two factors, 16 bytes with a scale in the lower half and an offset
/// in the upper one, 32 bytes with a bit for each element, then 124 bytes of two codes each.
#[verifier::spinoff_prover]
#[verifier::rlimit(40)]
pub proof fn law_format_q5_k(s: Seq<u8>, i: int)
    requires
        0 <= i,
    ensures
        ({
            let (e, p, k) = (element_of(GgmlDType::Q5_K, s, i), 176 * (i / 256), i % 256);
            let c = s[p + 4 + k / 16];
            let low = if k / 2 < 124 {
                half_byte(s[p + 52 + k / 2], i)
            } else {
                0
            };
            &&& e.q == low + 16 * bit_of(s[p + 20 + k / 8], mask_bit(i % 8))
            &&& e.scale == c & 0x0f
            &&& e.min == c >> 4
            &&& e.d == two_bytes(s, p)
            &&& e.m == two_bytes(s, p + 2)
        }),
{
    let (p, k) = (176 * (i / 256), i % 256);
    lemma_half(s, p);
    lemma_half(s, p + 2);
    lemma_half_byte(s[p + 52 + k / 2], k);
    law_bits_are_shifts(s[p + 4 + k / 16]);
    lemma_places(i);
    assert(crate::quant::codes::high_place(k) == mask_bit(k % 8));
    lemma_bit_of(s[p + 20 + k / 8], mask_bit(i % 8));
}

/// Six bits with sub-blocks of 16: 128 bytes of two low parts each, 64 bytes of four upper parts each,
/// 16 signed bytes of scales, then a factor.  Codes are 32 too great.
pub proof fn law_format_q6_k(s: Seq<u8>, i: int)
    requires
        0 <= i,
    ensures
        ({
            let (e, p, k) = (element_of(GgmlDType::Q6_K, s, i), 210 * (i / 256), i % 256);
            &&& e.q == half_byte(s[p + k / 2], i) + 16 * two_bits_of(s[p + 128 + k / 4], i % 4) - 32
            &&& is_signed_byte(e.scale as int, s[p + 192 + k / 16])
            &&& e == (Element { q: e.q, scale: e.scale, min: 0, d: two_bytes(s, p + 208), m: 0 })
        }),
{
    let (p, k) = (210 * (i / 256), i % 256);
    lemma_half(s, p + 208);
    lemma_half_byte(s[p + k / 2], k);
    lemma_two_bits_of(s[p + 128 + k / 4], i % 4);
    lemma_places(i);
}

/// Whole blocks are expanded to all their elements, none more.
pub proof fn law_whole_blocks_are_expanded(d: GgmlDType, blocks: int, rest: int, limit: int)
    requires
        0 <= blocks,
        0 <= rest < block_bytes_of(d),
    ensures
        blocks * block_size_of(d) <= limit ==> expanded_len(
            d,
            blocks * block_bytes_of(d) + rest,
            limit,
        ) == blocks * block_size_of(d),
        blocks * block_size_of(d) > limit ==> expanded_len(
            d,
            blocks * block_bytes_of(d) + rest,
            limit,
        ) == limit,
{
    vstd::arithmetic::div_mod::lemma_fundamental_div_mod_converse(
        blocks * block_bytes_of(d) + rest,
        block_bytes_of(d) as int,
        blocks,
        rest,
    );
}

/// A dot product starts at zero, and a change of one code changes it by the change times the other
/// side's code.
pub proof fn law_dot_product(a: Seq<i32>, b: Seq<i32>, j: int, x: i32)
    requires
        a.len() == b.len(),
        0 <= j < a.len(),
    ensures
        (forall|i: int| 0 <= i < a.len() ==> a[i] == 0) ==> dot_of(a, b) == 0,
        dot_of(a.update(j, x), b) == dot_of(a, b) + (x - a[j]) * b[j],
{
    lemma_zero_dot(a, b);
    lemma_changed_dot(a, b, j, x);
}

proof fn lemma_zero_dot(a: Seq<i32>, b: Seq<i32>)
    requires
        a.len() == b.len(),
    ensures
        (forall|i: int| 0 <= i < a.len() ==> a[i] == 0) ==> dot_of(a, b) == 0,
    decreases a.len(),
{
    if a.len() > 0 && (forall|i: int| 0 <= i < a.len() ==> a[i] == 0) {
        lemma_zero_dot(a.drop_last(), b.drop_last());
        assert(a.last() == a[a.len() - 1]);
        assert(0 * b.last() == 0);
    }
}

proof fn lemma_changed_dot(a: Seq<i32>, b: Seq<i32>, j: int, x: i32)
    requires
        a.len() == b.len(),
        0 <= j < a.len(),
    ensures
        dot_of(a.update(j, x), b) == dot_of(a, b) + (x - a[j]) * b[j],
    decreases a.len(),
{
    let c = a.update(j, x);
    if j < a.len() - 1 {
        lemma_changed_dot(a.drop_last(), b.drop_last(), j, x);
        assert(c.drop_last() =~= a.drop_last().update(j, x));
    } else {
        assert(c.drop_last() =~= a.drop_last());
        let (p, q, y) = (x as int, a[j] as int, b[j] as int);
        assert(p * y == q * y + (p - q) * y) by (nonlinear_arith);
    }
}

/// A term of a dot product multiplies the codes of the row with those of the activation, element by
/// element, and has the factors of the blocks that they belong to.
pub proof fn law_terms_multiply_elements(d: GgmlDType, row: Seq<u8>, act: Seq<u8>, k: int, i: int)
    requires
        d is Q8_0 || d is Q2_0 || d is Q1_0 || d is Q1_0_G128,
        0 <= k,
        0 <= i < 32,
    ensures
        term_of(d, row, act, k).sum == dot_of(row_codes(d, row, k), act_codes(act, k)) as i32,
        row_codes(d, row, k).len() == 32 && act_codes(act, k).len() == 32,
        row_codes(d, row, k)[i] == element_of(d, row, 32 * k + i).q,
        act_codes(act, k)[i] == element_of(GgmlDType::Q8_0, act, 32 * k + i).q,
        term_of(d, row, act, k).w == element_of(d, row, 32 * k + i).d,
        term_of(d, row, act, k).a == element_of(GgmlDType::Q8_0, act, 32 * k + i).d,
{
    assert((32 * k + i) / 32 == k && (32 * k + i) % 32 == i);
    assert((32 * k + i) / 128 == k / 4);
}

/// The same of the four-bit format, whose lower halves go with the first 16 elements of the activation
/// and whose upper halves with the others.
pub proof fn law_four_bit_terms(row: Seq<u8>, act: Seq<u8>, k: int, i: int)
    requires
        0 <= k,
        0 <= i < 32,
    ensures
        ({
            let (t, codes) = (
                term_of(GgmlDType::Q4_0, row, act, k),
                row_codes(GgmlDType::Q4_0, row, k),
            );
            &&& t.sum == dot_of(codes, act_codes(act, k)) as i32
            &&& codes.len() == 32
            &&& codes[i] == if i < 16 {
                (row[18 * k + 2 + i] & 0x0f) - 8
            } else {
                (row[18 * k + 2 + i - 16] >> 4) - 8
            }
            &&& t.w == two_bytes(row, 18 * k)
            &&& t.a == two_bytes(act, 34 * k)
        }),
{
    lemma_half(row, 18 * k);
    lemma_half(act, 34 * k);
    law_bits_are_shifts(row[18 * k + 2 + i]);
    law_bits_are_shifts(row[18 * k + 2 + i - 16]);
}

/// The same of six-byte blocks of signs.
pub proof fn law_small_sign_terms(row: Seq<u8>, act: Seq<u8>, k: int)
    requires
        0 <= k,
    ensures
        small_term_of(row, act, k).sum == dot_of(
            Seq::new(32, |i: int| q1_small_element(row, k, i).q),
            act_codes(act, k),
        ) as i32,
        small_term_of(row, act, k).w == two_bytes(row, 6 * k),
        small_term_of(row, act, k).a == two_bytes(act, 34 * k),
{
    lemma_half(row, 6 * k);
    lemma_half(act, 34 * k);
}

/// Bytes that the elements of a block take for their codes, with so many bits each.
pub open spec fn code_bytes(bits: int, size: nat) -> int {
    bits * size / 8
}

/// A block is as long as its parts: factors of two bytes, scales and offsets, and the codes.
pub proof fn law_blocks_are_their_parts(d: GgmlDType)
    ensures
        ({
            let (n, m) = (block_size_of(d), block_bytes_of(d) as int);
            &&& d is Q1_0 || d is Q1_0_G128 ==> n == 128 && m == 2 + code_bytes(1, n)
            &&& d is Q2_0 ==> n == 128 && m == 2 + code_bytes(2, n)
            &&& d is Q4_0 ==> n == 32 && m == 2 + code_bytes(4, n)
            &&& d is Q4_1 ==> n == 32 && m == 4 + code_bytes(4, n)
            &&& d is Q5_0 ==> n == 32 && m == 2 + code_bytes(5, n)
            &&& d is Q5_1 ==> n == 32 && m == 4 + code_bytes(5, n)
            &&& d is Q8_0 ==> n == 32 && m == 2 + code_bytes(8, n)
            &&& d is Q2_K ==> n == 256 && m == 4 + 16 + code_bytes(2, n)
            &&& d is Q3_K ==> n == 256 && m == 2 + 12 + code_bytes(3, n)
            &&& d is Q4_K ==> n == 256 && m == 4 + 12 + code_bytes(4, n)
            &&& d is Q5_K ==> n == 256 && m == 4 + 12 + code_bytes(5, n)
            &&& d is Q6_K ==> n == 256 && m == 2 + 16 + code_bytes(6, n)
            &&& d is F32 || d is I32 ==> n == 1 && m == 4
            &&& d is F16 || d is BF16 || d is I16 ==> n == 1 && m == 2
            &&& d is F64 || d is I64 ==> n == 1 && m == 8
            &&& d is I8 ==> n == 1 && m == 1
        }),
{
}

} // verus!
