//! Writing images.
use vstd::prelude::*;

verus! {

/// A word, most significant byte first.
pub open spec fn be32(x: u32) -> Seq<u8> {
    seq![
        (x as int / 0x100_0000) as u8,
        (x as int / 0x1_0000 % 0x100) as u8,
        (x as int / 0x100 % 0x100) as u8,
        (x as int % 0x100) as u8,
    ]
}

/// A half word, least significant byte first.
pub open spec fn le16_bytes(x: int) -> Seq<u8> {
    seq![(x % 0x100) as u8, (x / 0x100) as u8]
}

fn push_be32(out: &mut Vec<u8>, x: u32)
    ensures
        final(out)@ == old(out)@ + be32(x),
{
    out.push((x / 0x100_0000) as u8);
    out.push((x / 0x1_0000 % 0x100) as u8);
    out.push((x / 0x100 % 0x100) as u8);
    out.push((x % 0x100) as u8);
    assert(out@ =~= old(out)@ + be32(x));
}

fn push_le16(out: &mut Vec<u8>, x: u16)
    ensures
        final(out)@ == old(out)@ + le16_bytes(x as int),
{
    out.push((x % 0x100) as u8);
    out.push((x / 0x100) as u8);
    assert(out@ =~= old(out)@ + le16_bytes(x as int));
}

fn push_bytes(out: &mut Vec<u8>, data: &[u8], from: usize, to: usize)
    requires
        from <= to <= data@.len(),
    ensures
        final(out)@ == old(out)@ + data@.subrange(from as int, to as int),
{
    let mut i: usize = from;
    assert(out@ =~= old(out)@ + data@.subrange(from as int, from as int));
    while i < to
        invariant
            from <= i <= to <= data@.len(),
            out@ == old(out)@ + data@.subrange(from as int, i as int),
        decreases to - i,
    {
        out.push(data[i]);
        i += 1;
        assert(out@ =~= old(out)@ + data@.subrange(from as int, i as int));
    }
}

/// One bit of the checksum's division.
pub open spec fn crc_bit(crc: u32) -> u32 {
    if crc % 2 == 1 {
        ((crc as int / 2) as u32) ^ 0xedb8_8320
    } else {
        (crc as int / 2) as u32
    }
}

/// `n` bits of the checksum's division.
pub open spec fn crc_bits(crc: u32, n: nat) -> u32
    decreases n,
{
    if n == 0 {
        crc
    } else {
        crc_bit(crc_bits(crc, (n - 1) as nat))
    }
}

/// The running checksum after more bytes.
pub open spec fn crc_after(crc: u32, data: Seq<u8>) -> u32
    decreases data.len(),
{
    if data.len() == 0 {
        crc
    } else {
        crc_bits(crc_after(crc, data.drop_last()) ^ (data.last() as u32), 8)
    }
}

/// The running checksum after more bytes.
pub fn crc32_update(crc: u32, data: &[u8]) -> (r: u32)
    ensures
        r == crc_after(crc, data@),
{
    let mut c: u32 = crc;
    let mut i: usize = 0;
    assert(data@.take(0).len() == 0);
    while i < data.len()
        invariant
            i <= data@.len(),
            c == crc_after(crc, data@.take(i as int)),
        decreases data@.len() - i,
    {
        assert(data@.take(i + 1).drop_last() =~= data@.take(i as int));
        let ghost start = c ^ (data@[i as int] as u32);
        c = c ^ (data[i] as u32);
        let mut j: u32 = 0;
        while j < 8
            invariant
                j <= 8,
                c == crc_bits(start, j as nat),
            decreases 8 - j,
        {
            c = if c % 2 == 1 { (c / 2) ^ 0xedb8_8320 } else { c / 2 };
            j += 1;
        }
        i += 1;
    }
    assert(data@.take(i as int) =~= data@);
    c
}

/// The checksum of a run of bytes.
pub open spec fn crc_of(data: Seq<u8>) -> u32 {
    crc_after(0xffff_ffff, data) ^ 0xffff_ffff
}

/// The checksum of a run of bytes.
pub fn crc32(data: &[u8]) -> (r: u32)
    ensures
        r == crc_of(data@),
{
    crc32_update(0xffff_ffff, data) ^ 0xffff_ffff
}

/// The checksum of two runs of bytes is that of the second, continued from the first.
pub proof fn law_checksum_continues(crc: u32, a: Seq<u8>, b: Seq<u8>)
    ensures
        crc_after(crc, a + b) == crc_after(crc_after(crc, a), b),
    decreases b.len(),
{
    if b.len() == 0 {
        assert(a + b =~= a);
    } else {
        law_checksum_continues(crc, a, b.drop_last());
        assert((a + b).drop_last() =~= a + b.drop_last());
        assert((a + b).last() == b.last());
    }
}

/// Bytes of data that one stored block can hold.
pub const STORED_MAX: usize = 65535;

/// A stored block: whether it is the last, its length, its complement, its bytes.
pub open spec fn stored_block(last: bool, data: Seq<u8>) -> Seq<u8> {
    seq![
        if last {
            1u8
        } else {
            0u8
        },
    ] + le16_bytes(data.len() as int) + le16_bytes(65535 - data.len()) + data
}

/// Data in stored blocks from `pos` on.
pub open spec fn stored_from(data: Seq<u8>, pos: int) -> Seq<u8>
    decreases data.len() - pos,
{
    if pos < 0 || pos >= data.len() {
        Seq::empty()
    } else if data.len() - pos <= STORED_MAX {
        stored_block(true, data.skip(pos))
    } else {
        stored_block(false, data.subrange(pos, pos + STORED_MAX)) + stored_from(
            data,
            pos + STORED_MAX,
        )
    }
}

/// The first sum of the data's check value.
pub open spec fn adler_a(data: Seq<u8>) -> int
    decreases data.len(),
{
    if data.len() == 0 {
        1
    } else {
        (adler_a(data.drop_last()) + data.last()) % 65521
    }
}

/// The second sum of the data's check value.
pub open spec fn adler_b(data: Seq<u8>) -> int
    decreases data.len(),
{
    if data.len() == 0 {
        0
    } else {
        (adler_b(data.drop_last()) + adler_a(data)) % 65521
    }
}

/// Data in stored blocks, with its check value.
pub open spec fn packed(data: Seq<u8>) -> Seq<u8> {
    stored_from(data, 0) + be32((adler_b(data) * 0x1_0000 + adler_a(data)) as u32)
}

/// The two bytes that begin a compressed stream: method, window and level, their check bits.
pub open spec fn stream_header() -> Seq<u8> {
    seq![0x78u8, 0x01]
}

/// Packs data in stored blocks, with its check value.
pub fn deflate_raw(data: &[u8]) -> (r: Vec<u8>)
    ensures
        r@ == packed(data@),
{
    let mut out: Vec<u8> = Vec::new();
    let mut pos: usize = 0;
    assert(out@ + stored_from(data@, 0) =~= stored_from(data@, 0));
    while pos < data.len()
        invariant
            pos <= data@.len(),
            stored_from(data@, 0) == out@ + stored_from(data@, pos as int),
        decreases data@.len() - pos,
    {
        let remaining: usize = data.len() - pos;
        let last = remaining <= STORED_MAX;
        let len: usize = if last { remaining } else { STORED_MAX };
        let ghost before = out@;
        let ghost piece = data@.subrange(pos as int, pos + len);
        out.push(if last { 1 } else { 0 });
        push_le16(&mut out, len as u16);
        push_le16(&mut out, 65535 - len as u16);
        push_bytes(&mut out, data, pos, pos + len);
        proof {
            assert(last ==> piece =~= data@.skip(pos as int));
            assert(out@ =~= before + stored_block(last, piece));
            assert(out@ + stored_from(data@, pos + len) =~= before + stored_from(
                data@,
                pos as int,
            ));
        }
        pos = pos + len;
    }
    assert(out@ + Seq::<u8>::empty() =~= out@);
    let mut s1: u32 = 1;
    let mut s2: u32 = 0;
    let mut i: usize = 0;
    assert(data@.take(0).len() == 0);
    while i < data.len()
        invariant
            i <= data@.len(),
            s1 == adler_a(data@.take(i as int)),
            s2 == adler_b(data@.take(i as int)),
            s1 < 65521,
            s2 < 65521,
        decreases data@.len() - i,
    {
        assert(data@.take(i + 1).drop_last() =~= data@.take(i as int));
        s1 = (s1 + data[i] as u32) % 65521;
        s2 = (s2 + s1) % 65521;
        i += 1;
    }
    assert(data@.take(i as int) =~= data@);
    push_be32(&mut out, s2 * 0x1_0000 + s1);
    out
}

/// What stored blocks from `pos` on hold.
pub open spec fn unpacked_from(s: Seq<u8>, pos: int) -> Seq<u8>
    decreases s.len() - pos,
{
    if pos < 0 || pos + 5 > s.len() {
        Seq::empty()
    } else {
        let n = s[pos + 1] + 0x100 * s[pos + 2];
        let body = s.subrange(pos + 5, pos + 5 + n);
        if s[pos] == 1 || pos + 5 + n > s.len() {
            body
        } else {
            body + unpacked_from(s, pos + 5 + n)
        }
    }
}

/// Unpacking gives back what was packed, with and without the header of a stream in front.
pub proof fn law_packing_keeps_the_data(data: Seq<u8>)
    ensures
        unpacked_from(packed(data), 0) == data,
        unpacked_from(stream_header() + packed(data), 2) == data,
{
    let tail = be32((adler_b(data) * 0x1_0000 + adler_a(data)) as u32);
    if data.len() > 0 {
        lemma_unpack(Seq::empty(), data, 0, tail);
        assert(Seq::<u8>::empty() + stored_from(data, 0) + tail =~= packed(data));
        lemma_unpack(stream_header(), data, 0, tail);
        assert(stream_header() + stored_from(data, 0) + tail =~= stream_header() + packed(data));
        assert(data.skip(0) =~= data);
    } else {
        assert(data =~= Seq::empty());
    }
}

proof fn lemma_unpack(front: Seq<u8>, data: Seq<u8>, pos: int, tail: Seq<u8>)
    requires
        0 <= pos < data.len(),
    ensures
        unpacked_from(front + stored_from(data, pos) + tail, front.len() as int) == data.skip(pos),
    decreases data.len() - pos,
{
    let whole = front + stored_from(data, pos) + tail;
    let p = front.len() as int;
    if data.len() - pos <= STORED_MAX {
        let piece = data.skip(pos);
        let block = stored_block(true, piece);
        assert(block[0] == 1u8);
        assert(whole[p] == block[0]);
        assert(whole[p + 1] == block[1]);
        assert(whole[p + 2] == block[2]);
        assert(whole[p + 1] + 0x100 * whole[p + 2] == piece.len());
        assert(whole.subrange(p + 5, p + 5 + piece.len()) =~= piece);
    } else {
        let piece = data.subrange(pos, pos + STORED_MAX);
        let block = stored_block(false, piece);
        let rest = stored_from(data, pos + STORED_MAX);
        assert(block.len() == 5 + STORED_MAX);
        assert(whole[p] == block[0]);
        assert(whole[p + 1] == block[1]);
        assert(whole[p + 2] == block[2]);
        assert(whole[p + 1] + 0x100 * whole[p + 2] == STORED_MAX);
        assert(whole.subrange(p + 5, p + 5 + STORED_MAX) =~= piece);
        lemma_unpack(front + block, data, pos + STORED_MAX, tail);
        assert((front + block) + rest + tail =~= whole);
        assert(piece + data.skip(pos + STORED_MAX) =~= data.skip(pos));
    }
}

/// A chunk of an image file: length, name, data, check value of name and data.
pub open spec fn chunk(name: Seq<u8>, data: Seq<u8>) -> Seq<u8> {
    be32(data.len() as u32) + name + data + be32(crc_of(name + data))
}

/// Appends a chunk.
pub fn write_png_chunk(out: &mut Vec<u8>, name: &[u8; 4], data: &[u8])
    ensures
        final(out)@ == old(out)@ + chunk(name@, data@),
{
    push_be32(
        out,
        #[verifier::truncate]
        (data.len() as u32),
    );
    push_bytes(out, name.as_slice(), 0, 4);
    push_bytes(out, data, 0, data.len());
    let crc: u32 = crc32_update(crc32_update(0xffff_ffff, name.as_slice()), data);
    push_be32(out, crc ^ 0xffff_ffff);
    proof {
        law_checksum_continues(0xffff_ffff, name@, data@);
        assert(name@.subrange(0, name@.len() as int) =~= name@);
        assert(data@.subrange(0, data@.len() as int) =~= data@);
        assert(out@ =~= old(out)@ + chunk(name@, data@));
    }
}

/// Rows of pixels, each behind a zero byte.
pub open spec fn scanlines(pixels: Seq<u8>, row_bytes: int, n: nat) -> Seq<u8>
    decreases n,
{
    if n == 0 {
        Seq::empty()
    } else {
        scanlines(pixels, row_bytes, (n - 1) as nat) + seq![0u8] + pixels.subrange(
            (n - 1) * row_bytes,
            n * row_bytes,
        )
    }
}

/// The bytes that begin an image file.
pub open spec fn signature() -> Seq<u8> {
    seq![137u8, 80, 78, 71, 13, 10, 26, 10]
}

/// The header of an image with four bytes per pixel.
pub open spec fn header(h: u32, w: u32) -> Seq<u8> {
    be32(w) + be32(h) + seq![8u8, 6, 0, 0, 0]
}

pub open spec fn ihdr() -> Seq<u8> {
    seq![0x49u8, 0x48, 0x44, 0x52]
}

pub open spec fn idat() -> Seq<u8> {
    seq![0x49u8, 0x44, 0x41, 0x54]
}

pub open spec fn iend() -> Seq<u8> {
    seq![0x49u8, 0x45, 0x4e, 0x44]
}

/// An image file.
pub open spec fn image_file(pixels: Seq<u8>, h: int, w: int) -> Seq<u8> {
    signature() + chunk(ihdr(), header(h as u32, w as u32)) + chunk(
        idat(),
        stream_header() + packed(scanlines(pixels, w * 4, h as nat)),
    ) + chunk(iend(), Seq::empty())
}

/// Writes an image of `h` rows of `w` pixels of four bytes.
pub fn encode_png(pixels: &[u8], h: usize, w: usize) -> (r: Result<Vec<u8>, String>)
    requires
        w * 4 <= usize::MAX,
        h * (w * 4) <= pixels@.len(),
    ensures
        r matches Ok(out) && out@ == image_file(pixels@, h as int, w as int),
{
    let mut out: Vec<u8> = vec![137, 80, 78, 71, 13, 10, 26, 10];
    assert(out@ =~= signature());
    let mut head: Vec<u8> = Vec::new();
    push_be32(
        &mut head,
        #[verifier::truncate]
        (w as u32),
    );
    push_be32(
        &mut head,
        #[verifier::truncate]
        (h as u32),
    );
    head.push(8);
    head.push(6);
    head.push(0);
    head.push(0);
    head.push(0);
    assert(head@ =~= header(h as u32, w as u32));
    let name_head: [u8; 4] = [0x49, 0x48, 0x44, 0x52];
    assert(name_head@ =~= ihdr());
    write_png_chunk(&mut out, &name_head, head.as_slice());
    let row_bytes: usize = w * 4;
    let mut raw: Vec<u8> = Vec::new();
    let mut y: usize = 0;
    while y < h
        invariant
            y <= h,
            row_bytes == w * 4,
            h * row_bytes <= pixels@.len(),
            raw@ == scanlines(pixels@, row_bytes as int, y as nat),
        decreases h - y,
    {
        proof {
            assert(0 <= y * row_bytes && y * row_bytes + row_bytes == (y + 1) * row_bytes && (y + 1)
                * row_bytes <= h * row_bytes) by (nonlinear_arith)
                requires
                    0 <= y < h,
                    0 <= row_bytes,
            {
            }
            assert(pixels@.len() == pixels.len());
        }
        let start: usize = y * row_bytes;
        let ghost before = raw@;
        raw.push(0);
        push_bytes(&mut raw, pixels, start, start + row_bytes);
        y += 1;
        assert(raw@ =~= scanlines(pixels@, row_bytes as int, y as nat));
    }
    let packed_rows = deflate_raw(raw.as_slice());
    let mut data: Vec<u8> = vec![0x78, 0x01];
    assert(data@ =~= stream_header());
    push_bytes(&mut data, packed_rows.as_slice(), 0, packed_rows.len());
    assert(data@ =~= stream_header() + packed_rows@);
    let name_data: [u8; 4] = [0x49, 0x44, 0x41, 0x54];
    assert(name_data@ =~= idat());
    write_png_chunk(&mut out, &name_data, data.as_slice());
    let name_end: [u8; 4] = [0x49, 0x45, 0x4e, 0x44];
    assert(name_end@ =~= iend());
    let nothing: Vec<u8> = Vec::new();
    assert(nothing@ =~= Seq::empty());
    write_png_chunk(&mut out, &name_end, nothing.as_slice());
    Ok(out)
}

} // verus!
