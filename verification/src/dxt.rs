use vstd::prelude::*;

use crate::image::{lemma_index_in_bounds, Image};

verus! {

// DDS header field constants.
pub const DDSD_CAPS: u32 = 0x1;
pub const DDSD_HEIGHT: u32 = 0x2;
pub const DDSD_WIDTH: u32 = 0x4;
pub const DDSD_PIXELFORMAT: u32 = 0x1000;
pub const DDSD_LINEARSIZE: u32 = 0x80000;
pub const DDPF_FOURCC: u32 = 0x4;
pub const DDSCAPS_TEXTURE: u32 = 0x1000;

/// Little-endian bytes of a 16-bit value.
pub open spec fn le16(v: int) -> Seq<u8> {
    seq![(v % 256) as u8, ((v / 256) % 256) as u8]
}

/// Little-endian bytes of a 32-bit value.
pub open spec fn le32(v: int) -> Seq<u8> {
    seq![
        (v % 256) as u8,
        ((v / 0x100) % 256) as u8,
        ((v / 0x1_0000) % 256) as u8,
        ((v / 0x100_0000) % 256) as u8,
    ]
}

/// The low six little-endian bytes of a 48-bit value.
pub open spec fn le48(v: int) -> Seq<u8> {
    le32(v % 0x1_0000_0000) + le16(v / 0x1_0000_0000)
}

/// `n` zero bytes.
pub open spec fn zeros(n: nat) -> Seq<u8> {
    Seq::new(n, |i: int| 0u8)
}

/// The 128-byte DDS file header (magic included) for a `w × h` texture whose block
/// data is `len` bytes long and whose compression is named by `fourcc`.
pub open spec fn dds_header(w: u32, h: u32, fourcc: Seq<u8>, len: u32) -> Seq<u8> {
    seq![68u8, 68u8, 83u8, 32u8] + le32(124) + le32(0x81007) + le32(h as int) + le32(w as int)
        + le32(len as int) + le32(0) + le32(1) + zeros(44) + le32(32) + le32(4) + fourcc + zeros(20)
        + le32(0x1000) + zeros(16)
}

/// Append the little-endian bytes of `v`.
pub fn write_u32(buf: &mut Vec<u8>, v: u32)
    ensures
        final(buf)@ == old(buf)@ + le32(v as int),
{
    buf.push((v % 256) as u8);
    buf.push(((v / 0x100) % 256) as u8);
    buf.push(((v / 0x1_0000) % 256) as u8);
    buf.push(((v / 0x100_0000) % 256) as u8);
    assert(buf@ =~= old(buf)@ + le32(v as int));
}

/// Append `n` zero bytes.
fn write_zeros(buf: &mut Vec<u8>, n: usize)
    ensures
        final(buf)@ == old(buf)@ + zeros(n as nat),
{
    let mut i: usize = 0;
    while i < n
        invariant
            i <= n,
            buf@ == old(buf)@ + zeros(i as nat),
        decreases n - i,
    {
        buf.push(0u8);
        i = i + 1;
        assert(buf@ =~= old(buf)@ + zeros(i as nat));
    }
}

/// A DDS file: the header followed by the block data.
pub fn build_dds(w: u32, h: u32, fourcc: &[u8; 4], blocks: &[u8]) -> (dds: Vec<u8>)
    ensures
        dds@ == dds_header(w, h, fourcc@, blocks@.len() as u32) + blocks@,
{
    proof {
        assert((DDSD_CAPS | DDSD_HEIGHT | DDSD_WIDTH | DDSD_PIXELFORMAT | DDSD_LINEARSIZE) == 0x81007u32)
            by (bit_vector);
    }
    let mut dds: Vec<u8> = Vec::new();
    dds.push(68u8);
    dds.push(68u8);
    dds.push(83u8);
    dds.push(32u8);
    write_u32(&mut dds, 124);  // dwSize
    write_u32(&mut dds, DDSD_CAPS | DDSD_HEIGHT | DDSD_WIDTH | DDSD_PIXELFORMAT | DDSD_LINEARSIZE);  // dwFlags
    write_u32(&mut dds, h);  // dwHeight
    write_u32(&mut dds, w);  // dwWidth
    write_u32(&mut dds, blocks.len() as u32);  // dwPitchOrLinearSize
    write_u32(&mut dds, 0);  // dwDepth
    write_u32(&mut dds, 1);  // dwMipMapCount
    write_zeros(&mut dds, 44);  // dwReserved1[11]
    // DDS_PIXELFORMAT (32 bytes)
    write_u32(&mut dds, 32);  // dwSize
    write_u32(&mut dds, DDPF_FOURCC);  // dwFlags
    dds.push(fourcc[0]);
    dds.push(fourcc[1]);
    dds.push(fourcc[2]);
    dds.push(fourcc[3]);
    write_zeros(&mut dds, 20);  // dwRGBBitCount and the four masks
    write_u32(&mut dds, DDSCAPS_TEXTURE);  // dwCaps
    write_zeros(&mut dds, 16);  // dwCaps2, dwCaps3, dwCaps4, dwReserved2
    let mut i: usize = 0;
    let ghost head = dds@;
    assert(fourcc@ =~= seq![fourcc[0], fourcc[1], fourcc[2], fourcc[3]]);
    assert(head =~= dds_header(w, h, fourcc@, blocks@.len() as u32));
    while i < blocks.len()
        invariant
            i <= blocks@.len(),
            dds@ == head + blocks@.subrange(0, i as int),
        decreases blocks@.len() - i,
    {
        dds.push(blocks[i]);
        i = i + 1;
        assert(dds@ =~= head + blocks@.subrange(0, i as int));
    }
    assert(blocks@.subrange(0, blocks@.len() as int) =~= blocks@);
    dds
}

/// The smaller of two integers.
pub open spec fn imin(a: int, b: int) -> int {
    if a <= b {
        a
    } else {
        b
    }
}

/// The larger of two integers.
pub open spec fn imax(a: int, b: int) -> int {
    if a >= b {
        a
    } else {
        b
    }
}

/// Channel `c` of pixel `i`.
pub open spec fn chan3(ps: [[u8; 3]; 16], i: int, c: int) -> int {
    ps@[i]@[c] as int
}

/// Minimum of channel `c` over the first `k` pixels, starting from 255.
pub open spec fn min_chan(ps: [[u8; 3]; 16], c: int, k: int) -> int
    decreases k,
{
    if k <= 0 {
        255
    } else {
        imin(min_chan(ps, c, k - 1), chan3(ps, k - 1, c))
    }
}

/// Maximum of channel `c` over the first `k` pixels, starting from 0.
pub open spec fn max_chan(ps: [[u8; 3]; 16], c: int, k: int) -> int
    decreases k,
{
    if k <= 0 {
        0
    } else {
        imax(max_chan(ps, c, k - 1), chan3(ps, k - 1, c))
    }
}

/// RGB565 packing: 5 bits of red, 6 of green, 5 of blue, red highest.
pub open spec fn pack565(r: int, g: int, b: int) -> int {
    (r / 8) * 2048 + (g / 4) * 32 + b / 8
}

/// The two BC1 endpoints: the packed per-channel maximum and minimum, ordered so
/// that the first is strictly greater (4-colour mode), nudged apart when equal.
pub open spec fn bc1_endpoints(ps: [[u8; 3]; 16]) -> (int, int) {
    let c0 = pack565(max_chan(ps, 0, 16), max_chan(ps, 1, 16), max_chan(ps, 2, 16));
    let c1 = pack565(min_chan(ps, 0, 16), min_chan(ps, 1, 16), min_chan(ps, 2, 16));
    if c0 < c1 {
        (c1, c0)
    } else if c0 == c1 {
        if c0 > 0 {
            (c0, c0 - 1)
        } else {
            (c0 + 1, c0)
        }
    } else {
        (c0, c1)
    }
}

/// The 8-bit channels an RGB565 value expands to (bit replication).
pub open spec fn unpack565(v: int) -> (int, int, int) {
    let r5 = v / 2048;
    let g6 = (v / 32) % 64;
    let b5 = v % 32;
    (r5 * 8 + r5 / 4, g6 * 4 + g6 / 16, b5 * 8 + b5 / 4)
}

/// Two thirds of the way from `b` to `a`, rounded.
pub open spec fn third(a: int, b: int) -> int {
    (2 * a + b + 1) / 3
}

/// The BC1 palette entry `k` (0..4) for the given endpoints.
pub open spec fn palette(c0: int, c1: int, k: int) -> (int, int, int) {
    let a = unpack565(c0);
    let b = unpack565(c1);
    if k == 0 {
        a
    } else if k == 1 {
        b
    } else if k == 2 {
        (third(a.0, b.0), third(a.1, b.1), third(a.2, b.2))
    } else {
        (third(b.0, a.0), third(b.1, a.1), third(b.2, a.2))
    }
}

/// Squared RGB distance between pixel `i` and colour `c`.
pub open spec fn dist3(ps: [[u8; 3]; 16], i: int, c: (int, int, int)) -> int {
    let dr = chan3(ps, i, 0) - c.0;
    let dg = chan3(ps, i, 1) - c.1;
    let db = chan3(ps, i, 2) - c.2;
    dr * dr + dg * dg + db * db
}

/// The nearest palette index for pixel `i` (the lowest index on ties).
pub open spec fn bc1_pick(ps: [[u8; 3]; 16], i: int, c0: int, c1: int) -> int {
    let d0 = dist3(ps, i, palette(c0, c1, 0));
    let d1 = dist3(ps, i, palette(c0, c1, 1));
    let d2 = dist3(ps, i, palette(c0, c1, 2));
    let d3 = dist3(ps, i, palette(c0, c1, 3));
    if d0 <= d1 && d0 <= d2 && d0 <= d3 {
        0
    } else if d1 <= d2 && d1 <= d3 {
        1
    } else if d2 <= d3 {
        2
    } else {
        3
    }
}

/// `base` to the power `k`.
pub open spec fn powi(base: int, k: int) -> int
    decreases k,
{
    if k <= 0 {
        1
    } else {
        base * powi(base, k - 1)
    }
}

/// The 2-bit indices of the first `k` pixels packed into a word, pixel 0 lowest.
pub open spec fn bc1_word(ps: [[u8; 3]; 16], c0: int, c1: int, k: int) -> int
    decreases k,
{
    if k <= 0 {
        0
    } else {
        bc1_word(ps, c0, c1, k - 1) + bc1_pick(ps, k - 1, c0, c1) * powi(4, k - 1)
    }
}

/// Two 16-bit endpoints then a 32-bit index word, little-endian.
pub open spec fn block_layout(c0: int, c1: int, word: int) -> Seq<u8> {
    le16(c0) + le16(c1) + le32(word)
}

/// The 8-byte BC1 block for 16 RGB pixels: both endpoints then the index word.
pub open spec fn bc1_block_bytes(ps: [[u8; 3]; 16]) -> Seq<u8> {
    let (c0, c1) = bc1_endpoints(ps);
    block_layout(c0, c1, bc1_word(ps, c0, c1, 16))
}

/// The little-endian 32-bit value at byte `off`.
pub open spec fn read_u32(b: Seq<u8>, off: int) -> int {
    b[off] as int + 0x100 * (b[off + 1] as int) + 0x1_0000 * (b[off + 2] as int) + 0x100_0000 * (
    b[off + 3] as int)
}

/// Four little-endian bytes of a value below `2^32` give it back.
proof fn lemma_le32_value(v: int)
    requires
        0 <= v < 0x1_0000_0000,
    ensures
        le32(v)[0] as int + 0x100 * (le32(v)[1] as int) + 0x1_0000 * (le32(v)[2] as int) + 0x100_0000 * (
        le32(v)[3] as int) == v,
{
    vstd::arithmetic::div_mod::lemma_fundamental_div_mod(v, 0x100);
    let t1 = v / 0x100;
    vstd::arithmetic::div_mod::lemma_fundamental_div_mod(t1, 0x100);
    let t2 = t1 / 0x100;
    vstd::arithmetic::div_mod::lemma_fundamental_div_mod(t2, 0x100);
    vstd::arithmetic::div_mod::lemma_div_denominator(v, 0x100, 0x100);
    vstd::arithmetic::div_mod::lemma_div_denominator(t1, 0x100, 0x100);
    vstd::arithmetic::div_mod::lemma_div_denominator(v, 0x1_0000, 0x100);
    assert(t2 == v / 0x1_0000);
    assert(t2 / 0x100 == v / 0x100_0000);
    assert(0 <= t2 / 0x100 < 0x100);
}

/// A DDS file as `build_dds` writes it, read back at the format's fixed offsets:
/// the `DDS ` magic, a 124-byte header, the height at byte 12 and the width at
/// byte 16, the compressed size at byte 20, the FourCC at bytes 84 to 87, and the
/// block data from byte 128 on.
pub proof fn lemma_dds_layout(w: u32, h: u32, fourcc: Seq<u8>, blocks: Seq<u8>)
    requires
        fourcc.len() == 4,
    ensures
        ({
            let d = dds_header(w, h, fourcc, blocks.len() as u32) + blocks;
            &&& d.len() == 128 + blocks.len()
            &&& d[0] == 68 && d[1] == 68 && d[2] == 83 && d[3] == 32
            &&& read_u32(d, 4) == 124
            &&& read_u32(d, 12) == h
            &&& read_u32(d, 16) == w
            &&& read_u32(d, 20) == blocks.len() as u32
            &&& d.subrange(84, 88) == fourcc
            &&& d.subrange(128, d.len() as int) == blocks
        }),
{
    let d = dds_header(w, h, fourcc, blocks.len() as u32) + blocks;
    let hd = dds_header(w, h, fourcc, blocks.len() as u32);
    lemma_le32_value(124);
    lemma_le32_value(h as int);
    lemma_le32_value(w as int);
    lemma_le32_value((blocks.len() as u32) as int);
    assert(hd.len() == 128);
    assert(d[4] == le32(124)[0] && d[5] == le32(124)[1] && d[6] == le32(124)[2] && d[7] == le32(124)[3]);
    assert(d[12] == le32(h as int)[0] && d[13] == le32(h as int)[1] && d[14] == le32(h as int)[2] && d[15]
        == le32(h as int)[3]);
    assert(d[16] == le32(w as int)[0] && d[17] == le32(w as int)[1] && d[18] == le32(w as int)[2] && d[19]
        == le32(w as int)[3]);
    let l = (blocks.len() as u32) as int;
    assert(d[20] == le32(l)[0] && d[21] == le32(l)[1] && d[22] == le32(l)[2] && d[23] == le32(l)[3]);
    assert(d.subrange(84, 88) =~= fourcc);
    assert(d.subrange(128, d.len() as int) =~= blocks);
}

/// The first endpoint stored in a BC1 block (bytes 0 and 1, little-endian).
pub open spec fn block_c0(b: Seq<u8>) -> int {
    b[0] as int + 256 * (b[1] as int)
}

/// The second endpoint stored in a BC1 block (bytes 2 and 3, little-endian).
pub open spec fn block_c1(b: Seq<u8>) -> int {
    b[2] as int + 256 * (b[3] as int)
}

/// The 2-bit palette index a BC1 block stores for pixel `i` (row-major in the
/// 4×4 block): byte `4 + i / 4`, bits `2 * (i % 4)` and `2 * (i % 4) + 1`.
pub open spec fn block_index(b: Seq<u8>, i: int) -> int {
    let byte = b[4 + i / 4] as int;
    let m = i % 4;
    (if m == 0 {
        byte
    } else if m == 1 {
        byte / 4
    } else if m == 2 {
        byte / 16
    } else {
        byte / 64
    }) % 4
}

/// Channel minima and maxima stay within a byte.
proof fn lemma_chan_bounds(ps: [[u8; 3]; 16], c: int, k: int)
    ensures
        0 <= min_chan(ps, c, k) <= 255,
        0 <= max_chan(ps, c, k) <= 255,
    decreases k,
{
    if k > 0 {
        lemma_chan_bounds(ps, c, k - 1);
    }
}

/// The picked index is in range and names a nearest palette entry.
proof fn lemma_pick_nearest(ps: [[u8; 3]; 16], i: int, c0: int, c1: int)
    ensures
        0 <= bc1_pick(ps, i, c0, c1) < 4,
        forall|k: int|
            0 <= k < 4 ==> dist3(ps, i, palette(c0, c1, bc1_pick(ps, i, c0, c1))) <= #[trigger] dist3(
                ps,
                i,
                palette(c0, c1, k),
            ),
{
}

/// The index word is the picks of the sixteen pixels in base 4, pixel 0 lowest.
proof fn lemma_word_digits(ps: [[u8; 3]; 16], c0: int, c1: int)
    ensures
        bc1_word(ps, c0, c1, 16) == bc1_pick(ps, 0, c0, c1) + 4 * bc1_pick(ps, 1, c0, c1) + 16 * bc1_pick(ps, 2, c0, c1)
            + 64 * bc1_pick(ps, 3, c0, c1) + 0x100 * (bc1_pick(ps, 4, c0, c1) + 4 * bc1_pick(ps, 5, c0, c1) + 16
            * bc1_pick(ps, 6, c0, c1) + 64 * bc1_pick(ps, 7, c0, c1)) + 0x1_0000 * (bc1_pick(ps, 8, c0, c1) + 4
            * bc1_pick(ps, 9, c0, c1) + 16 * bc1_pick(ps, 10, c0, c1) + 64 * bc1_pick(ps, 11, c0, c1))
            + 0x100_0000 * (bc1_pick(ps, 12, c0, c1) + 4 * bc1_pick(ps, 13, c0, c1) + 16 * bc1_pick(ps, 14, c0, c1)
            + 64 * bc1_pick(ps, 15, c0, c1)),
{
    assert(powi(4, 0) == 1);
    assert(powi(4, 1) == 4);
    assert(powi(4, 2) == 16);
    assert(powi(4, 3) == 64);
    assert(powi(4, 4) == 256);
    assert(powi(4, 5) == 1024);
    assert(powi(4, 6) == 4096);
    assert(powi(4, 7) == 16384);
    assert(powi(4, 8) == 65536);
    assert(powi(4, 9) == 262144);
    assert(powi(4, 10) == 1048576);
    assert(powi(4, 11) == 4194304);
    assert(powi(4, 12) == 16777216);
    assert(powi(4, 13) == 67108864);
    assert(powi(4, 14) == 268435456);
    assert(powi(4, 15) == 1073741824);
    assert(bc1_word(ps, c0, c1, 1) == bc1_word(ps, c0, c1, 0) + bc1_pick(ps, 0, c0, c1) * powi(4, 0));
    assert(bc1_word(ps, c0, c1, 2) == bc1_word(ps, c0, c1, 1) + bc1_pick(ps, 1, c0, c1) * powi(4, 1));
    assert(bc1_word(ps, c0, c1, 3) == bc1_word(ps, c0, c1, 2) + bc1_pick(ps, 2, c0, c1) * powi(4, 2));
    assert(bc1_word(ps, c0, c1, 4) == bc1_word(ps, c0, c1, 3) + bc1_pick(ps, 3, c0, c1) * powi(4, 3));
    assert(bc1_word(ps, c0, c1, 5) == bc1_word(ps, c0, c1, 4) + bc1_pick(ps, 4, c0, c1) * powi(4, 4));
    assert(bc1_word(ps, c0, c1, 6) == bc1_word(ps, c0, c1, 5) + bc1_pick(ps, 5, c0, c1) * powi(4, 5));
    assert(bc1_word(ps, c0, c1, 7) == bc1_word(ps, c0, c1, 6) + bc1_pick(ps, 6, c0, c1) * powi(4, 6));
    assert(bc1_word(ps, c0, c1, 8) == bc1_word(ps, c0, c1, 7) + bc1_pick(ps, 7, c0, c1) * powi(4, 7));
    assert(bc1_word(ps, c0, c1, 9) == bc1_word(ps, c0, c1, 8) + bc1_pick(ps, 8, c0, c1) * powi(4, 8));
    assert(bc1_word(ps, c0, c1, 10) == bc1_word(ps, c0, c1, 9) + bc1_pick(ps, 9, c0, c1) * powi(4, 9));
    assert(bc1_word(ps, c0, c1, 11) == bc1_word(ps, c0, c1, 10) + bc1_pick(ps, 10, c0, c1) * powi(4, 10));
    assert(bc1_word(ps, c0, c1, 12) == bc1_word(ps, c0, c1, 11) + bc1_pick(ps, 11, c0, c1) * powi(4, 11));
    assert(bc1_word(ps, c0, c1, 13) == bc1_word(ps, c0, c1, 12) + bc1_pick(ps, 12, c0, c1) * powi(4, 12));
    assert(bc1_word(ps, c0, c1, 14) == bc1_word(ps, c0, c1, 13) + bc1_pick(ps, 13, c0, c1) * powi(4, 13));
    assert(bc1_word(ps, c0, c1, 15) == bc1_word(ps, c0, c1, 14) + bc1_pick(ps, 14, c0, c1) * powi(4, 14));
    assert(bc1_word(ps, c0, c1, 16) == bc1_word(ps, c0, c1, 15) + bc1_pick(ps, 15, c0, c1) * powi(4, 15));
}

/// Four bytes in base 256 give back those bytes as little-endian.
proof fn lemma_le32_parts(w: int, b0: int, b1: int, b2: int, b3: int)
    requires
        0 <= b0 < 256,
        0 <= b1 < 256,
        0 <= b2 < 256,
        0 <= b3 < 256,
        w == b0 + 0x100 * b1 + 0x1_0000 * b2 + 0x100_0000 * b3,
    ensures
        le32(w)[0] as int == b0,
        le32(w)[1] as int == b1,
        le32(w)[2] as int == b2,
        le32(w)[3] as int == b3,
{
    let t1 = b1 + 0x100 * b2 + 0x1_0000 * b3;
    let t2 = b2 + 0x100 * b3;
    vstd::arithmetic::div_mod::lemma_fundamental_div_mod_converse(w, 0x100, t1, b0);
    vstd::arithmetic::div_mod::lemma_fundamental_div_mod_converse(w, 0x1_0000, t2, b0 + 0x100 * b1);
    vstd::arithmetic::div_mod::lemma_fundamental_div_mod_converse(w, 0x100_0000, b3, b0 + 0x100 * b1 + 0x1_0000 * b2);
    vstd::arithmetic::div_mod::lemma_fundamental_div_mod_converse(t1, 0x100, t2, b1);
    vstd::arithmetic::div_mod::lemma_fundamental_div_mod_converse(t2, 0x100, b3, b2);
    vstd::arithmetic::div_mod::lemma_fundamental_div_mod_converse(b3, 0x100, 0, b3);
}

/// Four base-4 digits of a byte.
proof fn lemma_byte_digits(byte: int, q0: int, q1: int, q2: int, q3: int)
    requires
        0 <= q0 < 4,
        0 <= q1 < 4,
        0 <= q2 < 4,
        0 <= q3 < 4,
        byte == q0 + 4 * q1 + 16 * q2 + 64 * q3,
    ensures
        0 <= byte < 256,
        byte % 4 == q0,
        (byte / 4) % 4 == q1,
        (byte / 16) % 4 == q2,
        (byte / 64) % 4 == q3,
{
}

/// A 16-bit value in range gives back itself from its little-endian bytes.
proof fn lemma_le16_value(v: int)
    requires
        0 <= v < 0x1_0000,
    ensures
        le16(v)[0] as int + 256 * (le16(v)[1] as int) == v,
{
}

/// Sixteen base-4 digits as one word, digit 0 lowest.
pub open spec fn digits_word(q: Seq<int>) -> int {
    0x1 * q[0] + 0x4 * q[1] + 0x10 * q[2] + 0x40 * q[3] + 0x100 * q[4] + 0x400 * q[5] + 0x1000 * q[6] + 0x4000 * q[7] + 0x10000 * q[8] + 0x40000 * q[9] + 0x100000 * q[10] + 0x400000 * q[11] + 0x1000000 * q[12] + 0x4000000 * q[13] + 0x10000000 * q[14] + 0x40000000 * q[15]
}

/// Reading a laid-out block back gives its endpoints and its digits.
proof fn lemma_layout_decode(c0: int, c1: int, q: Seq<int>)
    requires
        0 <= c1 < c0 < 0x1_0000,
        q.len() == 16,
        forall|i: int| 0 <= i < 16 ==> 0 <= #[trigger] q[i] < 4,
    ensures
        block_layout(c0, c1, digits_word(q)).len() == 8,
        block_c0(block_layout(c0, c1, digits_word(q))) == c0,
        block_c1(block_layout(c0, c1, digits_word(q))) == c1,
        forall|i: int|
            0 <= i < 16 ==> #[trigger] block_index(block_layout(c0, c1, digits_word(q)), i) == q[i],
{
    let w = digits_word(q);
    let b = block_layout(c0, c1, w);
    lemma_byte_digits(q[0] + 4 * q[1] + 16 * q[2] + 64 * q[3], q[0], q[1], q[2], q[3]);
    lemma_byte_digits(q[4] + 4 * q[5] + 16 * q[6] + 64 * q[7], q[4], q[5], q[6], q[7]);
    lemma_byte_digits(q[8] + 4 * q[9] + 16 * q[10] + 64 * q[11], q[8], q[9], q[10], q[11]);
    lemma_byte_digits(q[12] + 4 * q[13] + 16 * q[14] + 64 * q[15], q[12], q[13], q[14], q[15]);
    lemma_le32_parts(
        w,
        q[0] + 4 * q[1] + 16 * q[2] + 64 * q[3],
        q[4] + 4 * q[5] + 16 * q[6] + 64 * q[7],
        q[8] + 4 * q[9] + 16 * q[10] + 64 * q[11],
        q[12] + 4 * q[13] + 16 * q[14] + 64 * q[15],
    );
    lemma_le16_value(c0);
    lemma_le16_value(c1);
    assert(b[4] == le32(w)[0] && b[5] == le32(w)[1] && b[6] == le32(w)[2] && b[7] == le32(w)[3]);
    assert forall|i: int| 0 <= i < 16 implies #[trigger] block_index(b, i) == q[i] by {
        assert(0 <= i / 4 < 4);
    }
}

/// A BC1 block, read back through the standard block layout, is in 4-colour mode
/// (first endpoint above the second), and every pixel's stored index names a
/// palette entry (of the block's own endpoints) at least as close to the pixel,
/// in squared RGB distance, as any of the four entries.
pub proof fn lemma_bc1_indices_nearest(ps: [[u8; 3]; 16])
    ensures
        bc1_block_bytes(ps).len() == 8,
        block_c0(bc1_block_bytes(ps)) > block_c1(bc1_block_bytes(ps)),
        forall|i: int| 0 <= i < 16 ==> 0 <= #[trigger] block_index(bc1_block_bytes(ps), i) < 4,
        forall|i: int, k: int|
            0 <= i < 16 && 0 <= k < 4 ==> dist3(
                ps,
                i,
                palette(
                    block_c0(bc1_block_bytes(ps)),
                    block_c1(bc1_block_bytes(ps)),
                    block_index(bc1_block_bytes(ps), i),
                ),
            ) <= #[trigger] dist3(
                ps,
                i,
                palette(block_c0(bc1_block_bytes(ps)), block_c1(bc1_block_bytes(ps)), k),
            ),
{
    let (c0, c1) = bc1_endpoints(ps);
    lemma_chan_bounds(ps, 0, 16);
    lemma_chan_bounds(ps, 1, 16);
    lemma_chan_bounds(ps, 2, 16);
    assert(0 <= c1 < c0 < 0x1_0000);
    let q = Seq::new(16, |i: int| bc1_pick(ps, i, c0, c1));
    assert forall|i: int| 0 <= i < 16 implies 0 <= #[trigger] q[i] < 4 by {
        lemma_pick_nearest(ps, i, c0, c1);
    }
    lemma_word_digits(ps, c0, c1);
    assert(bc1_word(ps, c0, c1, 16) == digits_word(q));
    lemma_layout_decode(c0, c1, q);
    let b = bc1_block_bytes(ps);
    assert(b == block_layout(c0, c1, digits_word(q)));
    assert forall|i: int, k: int| 0 <= i < 16 && 0 <= k < 4 implies dist3(
        ps,
        i,
        palette(block_c0(b), block_c1(b), block_index(b, i)),
    ) <= #[trigger] dist3(ps, i, palette(block_c0(b), block_c1(b), k)) by {
        lemma_pick_nearest(ps, i, c0, c1);
        assert(block_index(b, i) == q[i]);
    }
}

/// Pack 8-bit channels into RGB565.
pub fn rgb_to_565(r: u8, g: u8, b: u8) -> (v: u16)
    ensures
        v == pack565(r as int, g as int, b as int),
{
    (r as u16 / 8) * 2048 + (g as u16 / 4) * 32 + (b as u16 / 8)
}

/// Expand RGB565 to 8-bit channels by bit replication.
pub fn rgb_from_565(v: u16) -> (c: [u8; 3])
    ensures
        c@[0] == unpack565(v as int).0,
        c@[1] == unpack565(v as int).1,
        c@[2] == unpack565(v as int).2,
{
    let r5 = (v / 2048) as u8;
    let g6 = ((v / 32) % 64) as u8;
    let b5 = (v % 32) as u8;
    [r5 * 8 + r5 / 4, g6 * 4 + g6 / 16, b5 * 8 + b5 / 4]
}

/// Squared RGB distance.
pub fn color_dist_sq(a: [u8; 3], b: [u8; 3]) -> (d: u32)
    ensures
        d == (a@[0] - b@[0]) * (a@[0] - b@[0]) + (a@[1] - b@[1]) * (a@[1] - b@[1]) + (a@[2]
            - b@[2]) * (a@[2] - b@[2]),
{
    let dr = a[0] as i32 - b[0] as i32;
    let dg = a[1] as i32 - b[1] as i32;
    let db = a[2] as i32 - b[2] as i32;
    assert(0 <= dr * dr <= 65025) by (nonlinear_arith)
        requires
            -255 <= dr <= 255,
    ;
    assert(0 <= dg * dg <= 65025) by (nonlinear_arith)
        requires
            -255 <= dg <= 255,
    ;
    assert(0 <= db * db <= 65025) by (nonlinear_arith)
        requires
            -255 <= db <= 255,
    ;
    (dr * dr + dg * dg + db * db) as u32
}

/// Per-channel minimum and maximum over the 16 pixels:
/// `(rmin, rmax, gmin, gmax, bmin, bmax)`.
fn channel_bounds(pixels: &[[u8; 3]; 16]) -> (b: (u8, u8, u8, u8, u8, u8))
    ensures
        b.0 == min_chan(*pixels, 0, 16),
        b.1 == max_chan(*pixels, 0, 16),
        b.2 == min_chan(*pixels, 1, 16),
        b.3 == max_chan(*pixels, 1, 16),
        b.4 == min_chan(*pixels, 2, 16),
        b.5 == max_chan(*pixels, 2, 16),
{
    let ghost ps = *pixels;
    let mut rmin: u8 = 255;
    let mut rmax: u8 = 0;
    let mut gmin: u8 = 255;
    let mut gmax: u8 = 0;
    let mut bmin: u8 = 255;
    let mut bmax: u8 = 0;
    let mut i: usize = 0;
    while i < 16
        invariant
            ps == *pixels,
            i <= 16,
            rmin == min_chan(ps, 0, i as int),
            rmax == max_chan(ps, 0, i as int),
            gmin == min_chan(ps, 1, i as int),
            gmax == max_chan(ps, 1, i as int),
            bmin == min_chan(ps, 2, i as int),
            bmax == max_chan(ps, 2, i as int),
        decreases 16 - i,
    {
        let p = pixels[i];
        if p[0] < rmin {
            rmin = p[0];
        }
        if p[0] > rmax {
            rmax = p[0];
        }
        if p[1] < gmin {
            gmin = p[1];
        }
        if p[1] > gmax {
            gmax = p[1];
        }
        if p[2] < bmin {
            bmin = p[2];
        }
        if p[2] > bmax {
            bmax = p[2];
        }
        i = i + 1;
    }
    (rmin, rmax, gmin, gmax, bmin, bmax)
}

/// The four palette colours for endpoints `c0`, `c1`.
fn bc1_palette(c0: u16, c1: u16) -> (pal: [[u8; 3]; 4])
    ensures
        forall|k: int|
            0 <= k < 4 ==> (#[trigger] pal@[k])@[0] == palette(c0 as int, c1 as int, k).0
                && pal@[k]@[1] == palette(c0 as int, c1 as int, k).1 && pal@[k]@[2] == palette(
                c0 as int,
                c1 as int,
                k,
            ).2,
{
    let col0 = rgb_from_565(c0);
    let col1 = rgb_from_565(c1);
    let col2 = [
        ((2 * col0[0] as u32 + col1[0] as u32 + 1) / 3) as u8,
        ((2 * col0[1] as u32 + col1[1] as u32 + 1) / 3) as u8,
        ((2 * col0[2] as u32 + col1[2] as u32 + 1) / 3) as u8,
    ];
    let col3 = [
        ((col0[0] as u32 + 2 * col1[0] as u32 + 1) / 3) as u8,
        ((col0[1] as u32 + 2 * col1[1] as u32 + 1) / 3) as u8,
        ((col0[2] as u32 + 2 * col1[2] as u32 + 1) / 3) as u8,
    ];
    let pal = [col0, col1, col2, col3];
    assert forall|k: int| 0 <= k < 4 implies (#[trigger] pal@[k])@[0] == palette(
        c0 as int,
        c1 as int,
        k,
    ).0 && pal@[k]@[1] == palette(c0 as int, c1 as int, k).1 && pal@[k]@[2] == palette(
        c0 as int,
        c1 as int,
        k,
    ).2 by {
        if k == 0 {
            assert(pal@[k] == col0);
        } else if k == 1 {
            assert(pal@[k] == col1);
        } else if k == 2 {
            assert(pal@[k] == col2);
        } else {
            assert(pal@[k] == col3);
        }
    }
    pal
}

/// The packed 2-bit nearest-palette indices of the 16 pixels, pixel 0 lowest.
fn bc1_indices(pixels: &[[u8; 3]; 16], pal: &[[u8; 3]; 4], Ghost(c0): Ghost<int>, Ghost(c1): Ghost<int>) -> (w: u32)
    requires
        forall|k: int|
            0 <= k < 4 ==> (#[trigger] pal@[k])@[0] == palette(c0, c1, k).0 && pal@[k]@[1]
                == palette(c0, c1, k).1 && pal@[k]@[2] == palette(c0, c1, k).2,
    ensures
        w == bc1_word(*pixels, c0, c1, 16),
{
    let ghost ps = *pixels;
    let mut indices: u64 = 0;
    let mut mult: u64 = 1;
    let mut i: usize = 0;
    assert(pal@[0]@[0] == palette(c0, c1, 0).0);
    assert(pal@[1]@[0] == palette(c0, c1, 1).0);
    assert(pal@[2]@[0] == palette(c0, c1, 2).0);
    assert(pal@[3]@[0] == palette(c0, c1, 3).0);
    while i < 16
        invariant
            ps == *pixels,
            i <= 16,
            forall|k: int|
                0 <= k < 4 ==> (#[trigger] pal@[k])@[0] == palette(c0, c1, k).0 && pal@[k]@[1]
                    == palette(c0, c1, k).1 && pal@[k]@[2] == palette(c0, c1, k).2,
            mult == powi(4, i as int),
            indices == bc1_word(ps, c0, c1, i as int),
            indices < mult,
        decreases 16 - i,
    {
        proof {
            lemma_pow4_bound(i as int);
        }
        let p = pixels[i];
        let d0 = color_dist_sq(p, pal[0]);
        let d1 = color_dist_sq(p, pal[1]);
        let d2 = color_dist_sq(p, pal[2]);
        let d3 = color_dist_sq(p, pal[3]);
        let idx: u64 = if d0 <= d1 && d0 <= d2 && d0 <= d3 {
            0
        } else if d1 <= d2 && d1 <= d3 {
            1
        } else if d2 <= d3 {
            2
        } else {
            3
        };
        assert(idx == bc1_pick(ps, i as int, c0, c1));
        indices = indices + idx * mult;
        mult = mult * 4;
        i = i + 1;
    }
    proof {
        lemma_pow4_bound(16);
    }
    indices as u32
}

/// The BC1 endpoints for the given channel bounds (see `bc1_endpoints`).
fn bc1_endpoints_of(pixels: &[[u8; 3]; 16]) -> (e: (u16, u16))
    ensures
        (e.0 as int, e.1 as int) == bc1_endpoints(*pixels),
{
    let (rmin, rmax, gmin, gmax, bmin, bmax) = channel_bounds(pixels);
    let mut c0 = rgb_to_565(rmax, gmax, bmax);
    let mut c1 = rgb_to_565(rmin, gmin, bmin);

    // 4-colour mode requires c0 > c1 as raw u16 values.
    if c0 < c1 {
        let t = c0;
        c0 = c1;
        c1 = t;
    } else if c0 == c1 {
        // Degenerate: all pixels the same colour. Adjust to force 4-colour mode
        // so index 3 never resolves to transparent.
        if c0 > 0 {
            c1 = c1 - 1;
        } else {
            c0 = c0 + 1;
        }
    }
    (c0, c1)
}

/// Encode 16 RGB pixels as one BC1 block (min/max bounding-box endpoints, nearest
/// palette entry per pixel, 4-colour mode).
pub fn encode_bc1_block(pixels: &[[u8; 3]; 16]) -> (out: [u8; 8])
    ensures
        out@ == bc1_block_bytes(*pixels),
{
    let (c0, c1) = bc1_endpoints_of(pixels);
    let pal = bc1_palette(c0, c1);
    let indices = bc1_indices(pixels, &pal, Ghost(c0 as int), Ghost(c1 as int));
    layout_block(c0, c1, indices)
}

/// Lay out two endpoints and an index word as an 8-byte block.
fn layout_block(c0: u16, c1: u16, w: u32) -> (out: [u8; 8])
    ensures
        out@ == block_layout(c0 as int, c1 as int, w as int),
{
    let out = [
        (c0 % 256) as u8,
        (c0 / 256) as u8,
        (c1 % 256) as u8,
        (c1 / 256) as u8,
        (w % 256) as u8,
        ((w / 0x100) % 256) as u8,
        ((w / 0x1_0000) % 256) as u8,
        ((w / 0x100_0000) % 256) as u8,
    ];
    assert(out@ =~= block_layout(c0 as int, c1 as int, w as int));
    out
}

/// `4^k <= 2^30` for `k <= 15`, and `4^16 = 2^32`.
proof fn lemma_pow4_bound(k: int)
    requires
        0 <= k <= 16,
    ensures
        k <= 15 ==> powi(4, k) <= 0x4000_0000,
        k <= 16 ==> powi(4, k) <= 0x1_0000_0000,
        powi(4, k) >= 1,
        k == 16 ==> powi(4, k) == 0x1_0000_0000,
    decreases k,
{
    if k > 0 {
        lemma_pow4_bound(k - 1);
    }
    reveal_with_fuel(powi, 17);
}

/// Alpha of pixel `i`.
pub open spec fn alpha4(ps: [[u8; 4]; 16], i: int) -> int {
    ps@[i]@[3] as int
}

/// Largest alpha among the first `k >= 1` pixels.
pub open spec fn max_alpha(ps: [[u8; 4]; 16], k: int) -> int
    decreases k,
{
    if k <= 1 {
        alpha4(ps, 0)
    } else {
        imax(max_alpha(ps, k - 1), alpha4(ps, k - 1))
    }
}

/// Smallest alpha among the first `k >= 1` pixels.
pub open spec fn min_alpha(ps: [[u8; 4]; 16], k: int) -> int
    decreases k,
{
    if k <= 1 {
        alpha4(ps, 0)
    } else {
        imin(min_alpha(ps, k - 1), alpha4(ps, k - 1))
    }
}

/// Reference alpha `j` (0..8) of a BC3 block: the endpoints then six evenly spaced
/// values between them, or `a0` everywhere when the endpoints coincide.
pub open spec fn alpha_ref(a0: int, a1: int, j: int) -> int {
    if a0 > a1 {
        if j == 0 {
            a0
        } else if j == 1 {
            a1
        } else if j == 2 {
            (6 * a0 + a1 + 3) / 7
        } else if j == 3 {
            (5 * a0 + 2 * a1 + 3) / 7
        } else if j == 4 {
            (4 * a0 + 3 * a1 + 3) / 7
        } else if j == 5 {
            (3 * a0 + 4 * a1 + 3) / 7
        } else if j == 6 {
            (2 * a0 + 5 * a1 + 3) / 7
        } else {
            (a0 + 6 * a1 + 3) / 7
        }
    } else {
        a0
    }
}

/// Absolute difference.
pub open spec fn absdiff(a: int, b: int) -> int {
    if a >= b {
        a - b
    } else {
        b - a
    }
}

/// The reference among the first `m >= 1` nearest to `a` (the first one on ties).
pub open spec fn alpha_pick_upto(a0: int, a1: int, a: int, m: int) -> int
    decreases m,
{
    if m <= 1 {
        0
    } else {
        let b = alpha_pick_upto(a0, a1, a, m - 1);
        if absdiff(alpha_ref(a0, a1, m - 1), a) < absdiff(alpha_ref(a0, a1, b), a) {
            m - 1
        } else {
            b
        }
    }
}

/// The 3-bit indices of the first `k` pixels packed into a word, pixel 0 lowest.
pub open spec fn bc3_word(ps: [[u8; 4]; 16], a0: int, a1: int, k: int) -> int
    decreases k,
{
    if k <= 0 {
        0
    } else {
        bc3_word(ps, a0, a1, k - 1) + alpha_pick_upto(a0, a1, alpha4(ps, k - 1), 8) * powi(8, k - 1)
    }
}

/// The 8-byte BC3 alpha block: maximum and minimum alpha, then 16 3-bit indices.
pub open spec fn bc3_alpha_bytes(ps: [[u8; 4]; 16]) -> Seq<u8> {
    let a0 = max_alpha(ps, 16);
    let a1 = min_alpha(ps, 16);
    seq![a0 as u8, a1 as u8] + le48(bc3_word(ps, a0, a1, 16))
}

/// `8^k <= 2^45` for `k <= 15`, and `8^16 = 2^48`.
proof fn lemma_pow8_bound(k: int)
    requires
        0 <= k <= 16,
    ensures
        k <= 15 ==> powi(8, k) <= 0x2000_0000_0000,
        powi(8, k) >= 1,
        powi(8, k) <= 0x1_0000_0000_0000,
        k == 16 ==> powi(8, k) == 0x1_0000_0000_0000,
    decreases k,
{
    if k > 0 {
        lemma_pow8_bound(k - 1);
    }
    reveal_with_fuel(powi, 17);
}

/// The nearest of the eight reference alphas to `a` (first on ties).
fn nearest_ref(refs: &[u8; 8], a: u8, Ghost(a0): Ghost<int>, Ghost(a1): Ghost<int>) -> (j: u64)
    requires
        forall|k: int| 0 <= k < 8 ==> refs@[k] == alpha_ref(a0, a1, k),
    ensures
        j == alpha_pick_upto(a0, a1, a as int, 8),
{
    let mut best: usize = 0;
    let mut best_d: i16 = refs[0] as i16 - a as i16;
    if best_d < 0 {
        best_d = -best_d;
    }
    let mut j: usize = 1;
    while j < 8
        invariant
            1 <= j <= 8,
            best < 8,
            forall|k: int| 0 <= k < 8 ==> refs@[k] == alpha_ref(a0, a1, k),
            best == alpha_pick_upto(a0, a1, a as int, j as int),
            best_d == absdiff(refs@[best as int] as int, a as int),
        decreases 8 - j,
    {
        let mut d: i16 = refs[j] as i16 - a as i16;
        if d < 0 {
            d = -d;
        }
        if d < best_d {
            best = j;
            best_d = d;
        }
        j = j + 1;
    }
    best as u64
}

/// The eight reference alphas for endpoints `a0`, `a1`.
fn alpha_refs(a0: u8, a1: u8) -> (refs: [u8; 8])
    ensures
        forall|k: int| 0 <= k < 8 ==> refs@[k] == alpha_ref(a0 as int, a1 as int, k),
{
    let refs: [u8; 8] = if a0 > a1 {
        [
            a0,
            a1,
            ((6 * a0 as u16 + a1 as u16 + 3) / 7) as u8,
            ((5 * a0 as u16 + 2 * a1 as u16 + 3) / 7) as u8,
            ((4 * a0 as u16 + 3 * a1 as u16 + 3) / 7) as u8,
            ((3 * a0 as u16 + 4 * a1 as u16 + 3) / 7) as u8,
            ((2 * a0 as u16 + 5 * a1 as u16 + 3) / 7) as u8,
            ((a0 as u16 + 6 * a1 as u16 + 3) / 7) as u8,
        ]
    } else {
        // All pixels share the same alpha; index 0 maps to a0 for all.
        [a0, a0, a0, a0, a0, a0, a0, a0]
    };
    assert forall|k: int| 0 <= k < 8 implies refs@[k] == alpha_ref(a0 as int, a1 as int, k) by {
        if a0 > a1 {
            if k == 2 {
            } else if k == 3 {
            } else if k == 4 {
            } else if k == 5 {
            } else if k == 6 {
            } else if k == 7 {
            }
        }
    }
    refs
}

/// Encode the alpha channel of 16 RGBA pixels as one BC3 alpha block (6-interpolation
/// mode between the block's maximum and minimum alpha).
pub fn encode_bc3_alpha_block(pixels: &[[u8; 4]; 16]) -> (out: [u8; 8])
    ensures
        out@ == bc3_alpha_bytes(*pixels),
{
    let ghost ps = *pixels;
    let mut a0: u8 = pixels[0][3];
    let mut a1: u8 = pixels[0][3];
    let mut i: usize = 1;
    while i < 16
        invariant
            ps == *pixels,
            1 <= i <= 16,
            a0 == max_alpha(ps, i as int),
            a1 == min_alpha(ps, i as int),
        decreases 16 - i,
    {
        let a = pixels[i][3];
        if a > a0 {
            a0 = a;
        }
        if a < a1 {
            a1 = a;
        }
        i = i + 1;
    }
    let refs = alpha_refs(a0, a1);

    let mut bits: u64 = 0;
    let mut mult: u64 = 1;
    let mut i: usize = 0;
    while i < 16
        invariant
            ps == *pixels,
            i <= 16,
            a0 == max_alpha(ps, 16),
            a1 == min_alpha(ps, 16),
            forall|k: int| 0 <= k < 8 ==> refs@[k] == alpha_ref(a0 as int, a1 as int, k),
            mult == powi(8, i as int),
            bits == bc3_word(ps, a0 as int, a1 as int, i as int),
            bits < mult,
        decreases 16 - i,
    {
        proof {
            lemma_pow8_bound(i as int);
        }
        let idx = nearest_ref(&refs, pixels[i][3], Ghost(a0 as int), Ghost(a1 as int));
        proof {
            lemma_pick_below_8(a0 as int, a1 as int, ps@[i as int]@[3] as int, 8);
        }
        assert(idx * mult <= 7 * mult) by (nonlinear_arith)
            requires
                idx <= 7,
        ;
        bits = bits + idx * mult;
        mult = mult * 8;
        i = i + 1;
    }
    proof {
        lemma_pow8_bound(16);
    }
    let lo = (bits % 0x1_0000_0000) as u32;
    let hi = (bits / 0x1_0000_0000) as u32;
    let out = [
        a0,
        a1,
        (lo % 256) as u8,
        ((lo / 0x100) % 256) as u8,
        ((lo / 0x1_0000) % 256) as u8,
        ((lo / 0x100_0000) % 256) as u8,
        (hi % 256) as u8,
        ((hi / 0x100) % 256) as u8,
    ];
    assert(out@ =~= bc3_alpha_bytes(ps));
    out
}

/// The picked reference index is below `m`.
proof fn lemma_pick_below_8(a0: int, a1: int, a: int, m: int)
    requires
        1 <= m,
    ensures
        0 <= alpha_pick_upto(a0, a1, a, m) < m,
    decreases m,
{
    if m > 1 {
        lemma_pick_below_8(a0, a1, a, m - 1);
    }
}

/// The 48-bit index field of a BC3 alpha block (bytes 2 to 7, little-endian).
pub open spec fn alpha_block_word(b: Seq<u8>) -> int {
    b[2] as int + 0x100 * (b[3] as int) + 0x1_0000 * (b[4] as int) + 0x100_0000 * (b[5] as int)
        + 0x1_0000_0000 * (b[6] as int) + 0x100_0000_0000 * (b[7] as int)
}

/// The 3-bit alpha index a BC3 alpha block stores for pixel `i`: bits `3 * i` to
/// `3 * i + 2` of the index field.
pub open spec fn alpha_block_index(b: Seq<u8>, i: int) -> int {
    (alpha_block_word(b) / vstd::arithmetic::power::pow(8, i as nat)) % 8
}

/// `powi` agrees with vstd's `pow` on base 8.
proof fn lemma_powi_pow8(k: int)
    requires
        0 <= k,
    ensures
        powi(8, k) == vstd::arithmetic::power::pow(8, k as nat),
        powi(8, k) >= 1,
        powi(8, k + 1) == 8 * powi(8, k),
    decreases k,
{
    reveal(vstd::arithmetic::power::pow);
    if k > 0 {
        lemma_powi_pow8(k - 1);
    }
}

/// The alpha index word is below `8^k` after `k` pixels.
proof fn lemma_bc3_word_bound(ps: [[u8; 4]; 16], a0: int, a1: int, k: int)
    requires
        0 <= k,
    ensures
        0 <= bc3_word(ps, a0, a1, k) < powi(8, k),
    decreases k,
{
    lemma_powi_pow8(k);
    if k > 0 {
        lemma_bc3_word_bound(ps, a0, a1, k - 1);
        lemma_powi_pow8(k - 1);
        lemma_pick_below_8(a0, a1, alpha4(ps, k - 1), 8);
        let p = alpha_pick_upto(a0, a1, alpha4(ps, k - 1), 8);
        assert(p * powi(8, k - 1) <= 7 * powi(8, k - 1)) by (nonlinear_arith)
            requires
                0 <= p < 8,
                powi(8, k - 1) >= 1,
        ;
    }
}

/// The word after `n` pixels is the word after `k` plus a multiple of `8^k`.
proof fn lemma_bc3_word_split(ps: [[u8; 4]; 16], a0: int, a1: int, k: int, n: int) -> (r: int)
    requires
        0 <= k <= n,
    ensures
        r >= 0,
        bc3_word(ps, a0, a1, n) == bc3_word(ps, a0, a1, k) + powi(8, k) * r,
    decreases n - k,
{
    if n == k {
        0
    } else {
        let r0 = lemma_bc3_word_split(ps, a0, a1, k, n - 1);
        lemma_pick_below_8(a0, a1, alpha4(ps, n - 1), 8);
        let p = alpha_pick_upto(a0, a1, alpha4(ps, n - 1), 8);
        let e = lemma_pow8_factor(k, n - 1);
        assert(powi(8, n - 1) == powi(8, k) * e);
        assert(p * (powi(8, k) * e) == powi(8, k) * (p * e)) by (nonlinear_arith);
        assert(powi(8, k) * r0 + powi(8, k) * (p * e) == powi(8, k) * (r0 + p * e)) by (nonlinear_arith);
        assert(p * e >= 0) by (nonlinear_arith)
            requires
                p >= 0,
                e >= 0,
        ;
        r0 + p * e
    }
}

/// `8^n` is `8^k` times a natural number for `k <= n`.
proof fn lemma_pow8_factor(k: int, n: int) -> (e: int)
    requires
        0 <= k <= n,
    ensures
        e >= 1,
        powi(8, n) == powi(8, k) * e,
    decreases n - k,
{
    if n == k {
        lemma_powi_pow8(k);
        1
    } else {
        let e0 = lemma_pow8_factor(k, n - 1);
        lemma_powi_pow8(n - 1);
        assert(8 * (powi(8, k) * e0) == powi(8, k) * (8 * e0)) by (nonlinear_arith);
        8 * e0
    }
}

/// The base-8 digit at `base` of `lo + base * (p + 8 * hi)`.
proof fn lemma_octal_digit(v: int, lo: int, base: int, p: int, hi: int)
    requires
        0 <= lo < base,
        0 <= p < 8,
        hi >= 0,
        v == lo + base * (p + 8 * hi),
    ensures
        (v / base) % 8 == p,
{
    assert((p + 8 * hi) * base == base * (p + 8 * hi)) by (nonlinear_arith);
    vstd::arithmetic::div_mod::lemma_fundamental_div_mod_converse(v, base, p + 8 * hi, lo);
    vstd::arithmetic::div_mod::lemma_fundamental_div_mod_converse(p + 8 * hi, 8, hi, p);
}

/// Six little-endian bytes of a value below `2^48` give it back.
proof fn lemma_le48_value(v: int)
    requires
        0 <= v < 0x1_0000_0000_0000,
    ensures
        le48(v)[0] as int + 0x100 * (le48(v)[1] as int) + 0x1_0000 * (le48(v)[2] as int) + 0x100_0000
            * (le48(v)[3] as int) + 0x1_0000_0000 * (le48(v)[4] as int) + 0x100_0000_0000 * (
        le48(v)[5] as int) == v,
{
    let lo = v % 0x1_0000_0000;
    let hi = v / 0x1_0000_0000;
    vstd::arithmetic::div_mod::lemma_fundamental_div_mod(v, 0x1_0000_0000);
    let b0 = lo % 0x100;
    let t1 = lo / 0x100;
    vstd::arithmetic::div_mod::lemma_fundamental_div_mod(lo, 0x100);
    vstd::arithmetic::div_mod::lemma_fundamental_div_mod(t1, 0x100);
    let t2 = t1 / 0x100;
    vstd::arithmetic::div_mod::lemma_fundamental_div_mod(t2, 0x100);
    let t3 = t2 / 0x100;
    vstd::arithmetic::div_mod::lemma_div_denominator(lo, 0x100, 0x100);
    vstd::arithmetic::div_mod::lemma_div_denominator(t1, 0x100, 0x100);
    vstd::arithmetic::div_mod::lemma_div_denominator(lo, 0x1_0000, 0x100);
    assert(t2 == lo / 0x1_0000);
    assert(t3 == lo / 0x100_0000);
    assert(0 <= t3 < 0x100);
    vstd::arithmetic::div_mod::lemma_fundamental_div_mod(hi, 0x100);
    assert(le48(v) =~= le32(lo) + le16(hi));
}

/// Digit `i` (base 8) of the full alpha index word is pixel `i`'s pick.
proof fn lemma_bc3_digit(ps: [[u8; 4]; 16], a0: int, a1: int, i: int)
    requires
        0 <= i < 16,
    ensures
        (bc3_word(ps, a0, a1, 16) / powi(8, i)) % 8 == alpha_pick_upto(a0, a1, alpha4(ps, i), 8),
{
    lemma_bc3_word_bound(ps, a0, a1, i);
    let r = lemma_bc3_word_split(ps, a0, a1, i + 1, 16);
    lemma_powi_pow8(i);
    lemma_pick_below_8(a0, a1, alpha4(ps, i), 8);
    let p = alpha_pick_upto(a0, a1, alpha4(ps, i), 8);
    let v = bc3_word(ps, a0, a1, 16);
    assert(bc3_word(ps, a0, a1, i + 1) == bc3_word(ps, a0, a1, i) + p * powi(8, i));
    assert(powi(8, i + 1) * r == powi(8, i) * (8 * r)) by (nonlinear_arith)
        requires
            powi(8, i + 1) == 8 * powi(8, i),
    ;
    assert(p * powi(8, i) + powi(8, i) * (8 * r) == powi(8, i) * (p + 8 * r)) by (nonlinear_arith);
    lemma_octal_digit(v, bc3_word(ps, a0, a1, i), powi(8, i), p, r);
}

/// The alpha endpoints of a BC3 block are the largest and smallest alpha of the
/// pixels, and every pixel's stored 3-bit index (read back through the standard
/// block layout) names a reference alpha of the block's own endpoints at least as
/// close to the pixel's alpha as any of the eight references.
pub proof fn lemma_bc3_alpha_nearest(ps: [[u8; 4]; 16])
    ensures
        bc3_alpha_bytes(ps).len() == 8,
        forall|i: int| 0 <= i < 16 ==> bc3_alpha_bytes(ps)[1] <= #[trigger] alpha4(ps, i) <= bc3_alpha_bytes(ps)[0],
        exists|i: int| 0 <= i < 16 && #[trigger] alpha4(ps, i) == bc3_alpha_bytes(ps)[0],
        exists|i: int| 0 <= i < 16 && #[trigger] alpha4(ps, i) == bc3_alpha_bytes(ps)[1],
        forall|i: int| 0 <= i < 16 ==> 0 <= #[trigger] alpha_block_index(bc3_alpha_bytes(ps), i) < 8,
        forall|i: int, j: int|
            0 <= i < 16 && 0 <= j < 8 ==> absdiff(
                alpha_ref(
                    bc3_alpha_bytes(ps)[0] as int,
                    bc3_alpha_bytes(ps)[1] as int,
                    alpha_block_index(bc3_alpha_bytes(ps), i),
                ),
                alpha4(ps, i),
            ) <= #[trigger] absdiff(
                alpha_ref(bc3_alpha_bytes(ps)[0] as int, bc3_alpha_bytes(ps)[1] as int, j),
                alpha4(ps, i),
            ),
{
    let b = bc3_alpha_bytes(ps);
    let a0 = max_alpha(ps, 16);
    let a1 = min_alpha(ps, 16);
    lemma_alpha_extremes(ps, 16);
    let v = bc3_word(ps, a0, a1, 16);
    lemma_bc3_word_bound(ps, a0, a1, 16);
    lemma_pow8_bound(16);
    lemma_le48_value(v);
    assert(b[0] as int == a0 && b[1] as int == a1);
    assert(alpha_block_word(b) == v) by {
        assert(b[2] == le48(v)[0] && b[3] == le48(v)[1] && b[4] == le48(v)[2] && b[5] == le48(v)[3]
            && b[6] == le48(v)[4] && b[7] == le48(v)[5]);
    }
    assert forall|i: int| 0 <= i < 16 implies #[trigger] alpha_block_index(b, i) == alpha_pick_upto(
        a0,
        a1,
        alpha4(ps, i),
        8,
    ) by {
        lemma_bc3_digit(ps, a0, a1, i);
        lemma_powi_pow8(i);
    }
    assert forall|i: int, j: int| 0 <= i < 16 && 0 <= j < 8 implies absdiff(
        alpha_ref(b[0] as int, b[1] as int, alpha_block_index(b, i)),
        alpha4(ps, i),
    ) <= #[trigger] absdiff(alpha_ref(b[0] as int, b[1] as int, j), alpha4(ps, i)) by {
        lemma_alpha_pick_nearest(a0, a1, alpha4(ps, i), 8, j);
    }
}

/// The picked reference among the first `m` is in range and at least as near as
/// each of them.
proof fn lemma_alpha_pick_nearest(a0: int, a1: int, a: int, m: int, j: int)
    requires
        1 <= m,
        0 <= j < m,
    ensures
        0 <= alpha_pick_upto(a0, a1, a, m) < m,
        absdiff(alpha_ref(a0, a1, alpha_pick_upto(a0, a1, a, m)), a) <= absdiff(alpha_ref(a0, a1, j), a),
    decreases m,
{
    lemma_pick_below_8(a0, a1, a, m);
    if m > 1 {
        if j < m - 1 {
            lemma_alpha_pick_nearest(a0, a1, a, m - 1, j);
        } else {
            lemma_pick_below_8(a0, a1, a, m - 1);
        }
    }
}

/// The largest and smallest alpha of the first `k >= 1` pixels bound them all and
/// are reached, and lie within a byte.
proof fn lemma_alpha_extremes(ps: [[u8; 4]; 16], k: int)
    requires
        1 <= k <= 16,
    ensures
        0 <= min_alpha(ps, k) <= max_alpha(ps, k) <= 255,
        forall|i: int| 0 <= i < k ==> min_alpha(ps, k) <= #[trigger] alpha4(ps, i) <= max_alpha(ps, k),
        exists|i: int| 0 <= i < k && #[trigger] alpha4(ps, i) == max_alpha(ps, k),
        exists|i: int| 0 <= i < k && #[trigger] alpha4(ps, i) == min_alpha(ps, k),
    decreases k,
{
    if k > 1 {
        lemma_alpha_extremes(ps, k - 1);
        let im = choose|i: int| 0 <= i < k - 1 && #[trigger] alpha4(ps, i) == max_alpha(ps, k - 1);
        let jm = choose|i: int| 0 <= i < k - 1 && #[trigger] alpha4(ps, i) == min_alpha(ps, k - 1);
        if alpha4(ps, k - 1) > max_alpha(ps, k - 1) {
            assert(alpha4(ps, k - 1) == max_alpha(ps, k));
        } else {
            assert(alpha4(ps, im) == max_alpha(ps, k));
        }
        if alpha4(ps, k - 1) < min_alpha(ps, k - 1) {
            assert(alpha4(ps, k - 1) == min_alpha(ps, k));
        } else {
            assert(alpha4(ps, jm) == min_alpha(ps, k));
        }
    } else {
        assert(alpha4(ps, 0) == max_alpha(ps, 1));
    }
}

/// Index of the source pixel for pixel `i` (row-major) of the 4×4 block whose top-left
/// is `(bx, by)`; coordinates past the image edge are clamped to the last column/row.
pub open spec fn block_src(w: int, h: int, bx: int, by: int, i: int) -> int {
    imin(by + i / 4, h - 1) * w + imin(bx + i % 4, w - 1)
}

/// `b` holds the RGB block at `(bx, by)` of an interleaved RGB buffer.
pub open spec fn rgb_block_ok(b: [[u8; 3]; 16], rgb: Seq<u8>, w: int, h: int, bx: int, by: int) -> bool {
    forall|i: int, c: int|
        0 <= i < 16 && 0 <= c < 3 ==> #[trigger] b@[i]@[c] == rgb[3 * block_src(w, h, bx, by, i) + c]
}

/// `b` holds the RGBA block at `(bx, by)` of an interleaved RGBA buffer.
pub open spec fn rgba_block_ok(b: [[u8; 4]; 16], rgba: Seq<u8>, w: int, h: int, bx: int, by: int) -> bool {
    forall|i: int, c: int|
        0 <= i < 16 && 0 <= c < 4 ==> #[trigger] b@[i]@[c] == rgba[4 * block_src(w, h, bx, by, i) + c]
}

/// The RGB block at `(bx, by)`.
pub open spec fn rgb_block(rgb: Seq<u8>, w: int, h: int, bx: int, by: int) -> [[u8; 3]; 16] {
    choose|b: [[u8; 3]; 16]| rgb_block_ok(b, rgb, w, h, bx, by)
}

/// The RGBA block at `(bx, by)`.
pub open spec fn rgba_block(rgba: Seq<u8>, w: int, h: int, bx: int, by: int) -> [[u8; 4]; 16] {
    choose|b: [[u8; 4]; 16]| rgba_block_ok(b, rgba, w, h, bx, by)
}

/// The RGB channels of an RGBA block.
pub open spec fn drop_alpha_ok(rgb: [[u8; 3]; 16], rgba: [[u8; 4]; 16]) -> bool {
    forall|i: int, c: int| 0 <= i < 16 && 0 <= c < 3 ==> #[trigger] rgb@[i]@[c] == rgba@[i]@[c]
}

/// Number of 4-pixel blocks needed to cover `n` pixels.
pub open spec fn blocks_for(n: int) -> int {
    (n + 3) / 4
}

/// BC1 blocks for the first `k` block positions (row-major) of a `w × h` RGB image.
pub open spec fn bc1_stream(rgb: Seq<u8>, w: int, h: int, k: int) -> Seq<u8>
    decreases k,
{
    if k <= 0 {
        Seq::empty()
    } else {
        let bw = blocks_for(w);
        bc1_stream(rgb, w, h, k - 1) + bc1_block_bytes(
            rgb_block(rgb, w, h, ((k - 1) % bw) * 4, ((k - 1) / bw) * 4),
        )
    }
}

/// BC3 blocks (alpha block then colour block) for the first `k` block positions of a
/// `w × h` RGBA image.
pub open spec fn bc3_stream(rgba: Seq<u8>, w: int, h: int, k: int) -> Seq<u8>
    decreases k,
{
    if k <= 0 {
        Seq::empty()
    } else {
        let bw = blocks_for(w);
        let b = rgba_block(rgba, w, h, ((k - 1) % bw) * 4, ((k - 1) / bw) * 4);
        bc3_stream(rgba, w, h, k - 1) + bc3_alpha_bytes(b) + bc1_block_bytes(
            choose|c: [[u8; 3]; 16]| drop_alpha_ok(c, b),
        )
    }
}

/// The clamped source index is inside the image.
proof fn lemma_block_src_in_bounds(w: int, h: int, bx: int, by: int, i: int)
    requires
        w >= 1,
        h >= 1,
        bx >= 0,
        by >= 0,
        0 <= i < 16,
    ensures
        0 <= block_src(w, h, bx, by, i) < w * h,
{
    let px = imin(bx + i % 4, w - 1);
    let py = imin(by + i / 4, h - 1);
    lemma_index_in_bounds(px, py, w, h);
}

/// Copy out the 4×4 RGB block at `(bx, by)`, clamping at the image edges.
pub fn extract_block_rgb(rgb: &[u8], img_w: u32, img_h: u32, bx: u32, by: u32) -> (block: [[u8; 3]; 16])
    requires
        img_w >= 1,
        img_h >= 1,
        rgb@.len() == 3 * img_w * img_h,
        bx + 3 <= u32::MAX,
        by + 3 <= u32::MAX,
    ensures
        rgb_block_ok(block, rgb@, img_w as int, img_h as int, bx as int, by as int),
{
    let n = rgb.len();
    assert(3 * img_w * img_h == 3 * (img_h * img_w)) by (nonlinear_arith);
    let mut block = [[0u8; 3]; 16];
    let mut y: u32 = 0;
    while y < 4
        invariant
            n == rgb@.len(),
            3 * img_w * img_h == 3 * (img_h * img_w),
            y <= 4,
            img_w >= 1,
            img_h >= 1,
            rgb@.len() == 3 * img_w * img_h,
            bx + 3 <= u32::MAX,
            by + 3 <= u32::MAX,
            forall|i: int, c: int|
                0 <= i < 4 * y && 0 <= c < 3 ==> #[trigger] block@[i]@[c] == rgb@[3
                    * block_src(img_w as int, img_h as int, bx as int, by as int, i) + c],
        decreases 4 - y,
    {
        let mut x: u32 = 0;
        while x < 4
            invariant
                n == rgb@.len(),
                3 * img_w * img_h == 3 * (img_h * img_w),
                y < 4,
                x <= 4,
                img_w >= 1,
                img_h >= 1,
                rgb@.len() == 3 * img_w * img_h,
                bx + 3 <= u32::MAX,
                by + 3 <= u32::MAX,
                forall|i: int, c: int|
                    0 <= i < 4 * y + x && 0 <= c < 3 ==> #[trigger] block@[i]@[c] == rgb@[3
                        * block_src(img_w as int, img_h as int, bx as int, by as int, i) + c],
            decreases 4 - x,
        {
            let px = if bx + x <= img_w - 1 {
                bx + x
            } else {
                img_w - 1
            };
            let py = if by + y <= img_h - 1 {
                by + y
            } else {
                img_h - 1
            };
            let ghost k = (4 * y + x) as int;
            proof {
                assert(k / 4 == y && k % 4 == x);
                lemma_index_in_bounds(px as int, py as int, img_w as int, img_h as int);
                lemma_block_src_in_bounds(img_w as int, img_h as int, bx as int, by as int, k);
            }
            let i = (py as usize) * (img_w as usize) + (px as usize);
            assert(i == block_src(img_w as int, img_h as int, bx as int, by as int, k));
            let ghost before = block;
            block[(y * 4 + x) as usize] = [rgb[i * 3], rgb[i * 3 + 1], rgb[i * 3 + 2]];
            assert forall|j: int, c: int| 0 <= j < 4 * y + x + 1 && 0 <= c < 3 implies #[trigger] block@[j]@[c] == rgb@[3 * block_src(
                img_w as int,
                img_h as int,
                bx as int,
                by as int,
                j,
            ) + c] by {
                if j < k {
                    assert(block@[j] == before@[j]);
                }
            }
            x = x + 1;
        }
        y = y + 1;
    }
    block
}

/// Copy out the 4×4 RGBA block at `(bx, by)`, clamping at the image edges.
pub fn extract_block_rgba(rgba: &[u8], img_w: u32, img_h: u32, bx: u32, by: u32) -> (block: [[u8; 4]; 16])
    requires
        img_w >= 1,
        img_h >= 1,
        rgba@.len() == 4 * img_w * img_h,
        bx + 3 <= u32::MAX,
        by + 3 <= u32::MAX,
    ensures
        rgba_block_ok(block, rgba@, img_w as int, img_h as int, bx as int, by as int),
{
    let n = rgba.len();
    assert(4 * img_w * img_h == 4 * (img_h * img_w)) by (nonlinear_arith);
    let mut block = [[0u8; 4]; 16];
    let mut y: u32 = 0;
    while y < 4
        invariant
            n == rgba@.len(),
            4 * img_w * img_h == 4 * (img_h * img_w),
            y <= 4,
            img_w >= 1,
            img_h >= 1,
            rgba@.len() == 4 * img_w * img_h,
            bx + 3 <= u32::MAX,
            by + 3 <= u32::MAX,
            forall|i: int, c: int|
                0 <= i < 4 * y && 0 <= c < 4 ==> #[trigger] block@[i]@[c] == rgba@[4
                    * block_src(img_w as int, img_h as int, bx as int, by as int, i) + c],
        decreases 4 - y,
    {
        let mut x: u32 = 0;
        while x < 4
            invariant
                n == rgba@.len(),
                4 * img_w * img_h == 4 * (img_h * img_w),
                y < 4,
                x <= 4,
                img_w >= 1,
                img_h >= 1,
                rgba@.len() == 4 * img_w * img_h,
                bx + 3 <= u32::MAX,
                by + 3 <= u32::MAX,
                forall|i: int, c: int|
                    0 <= i < 4 * y + x && 0 <= c < 4 ==> #[trigger] block@[i]@[c] == rgba@[4
                        * block_src(img_w as int, img_h as int, bx as int, by as int, i) + c],
            decreases 4 - x,
        {
            let px = if bx + x <= img_w - 1 {
                bx + x
            } else {
                img_w - 1
            };
            let py = if by + y <= img_h - 1 {
                by + y
            } else {
                img_h - 1
            };
            let ghost k = (4 * y + x) as int;
            proof {
                assert(k / 4 == y && k % 4 == x);
                lemma_index_in_bounds(px as int, py as int, img_w as int, img_h as int);
                lemma_block_src_in_bounds(img_w as int, img_h as int, bx as int, by as int, k);
            }
            let i = (py as usize) * (img_w as usize) + (px as usize);
            assert(i == block_src(img_w as int, img_h as int, bx as int, by as int, k));
            let ghost before = block;
            block[(y * 4 + x) as usize] = [rgba[i * 4], rgba[i * 4 + 1], rgba[i * 4 + 2], rgba[i * 4 + 3]];
            assert forall|j: int, c: int| 0 <= j < 4 * y + x + 1 && 0 <= c < 4 implies #[trigger] block@[j]@[c] == rgba@[4 * block_src(
                img_w as int,
                img_h as int,
                bx as int,
                by as int,
                j,
            ) + c] by {
                if j < k {
                    assert(block@[j] == before@[j]);
                }
            }
            x = x + 1;
        }
        y = y + 1;
    }
    block
}

/// A block matching the RGB source is the block `rgb_block` names.
proof fn lemma_rgb_block_unique(b: [[u8; 3]; 16], rgb: Seq<u8>, w: int, h: int, bx: int, by: int)
    requires
        rgb_block_ok(b, rgb, w, h, bx, by),
    ensures
        rgb_block(rgb, w, h, bx, by) == b,
{
    let b2 = rgb_block(rgb, w, h, bx, by);
    assert(rgb_block_ok(b2, rgb, w, h, bx, by));
    assert forall|i: int| 0 <= i < 16 implies b2@[i] == b@[i] by {
        assert(b2@[i]@[0] == b@[i]@[0]);
        assert(b2@[i]@[1] == b@[i]@[1]);
        assert(b2@[i]@[2] == b@[i]@[2]);
        assert(b2@[i] =~= b@[i]);
    }
    assert(b2 =~= b);
}

/// A block matching the RGBA source is the block `rgba_block` names.
proof fn lemma_rgba_block_unique(b: [[u8; 4]; 16], rgba: Seq<u8>, w: int, h: int, bx: int, by: int)
    requires
        rgba_block_ok(b, rgba, w, h, bx, by),
    ensures
        rgba_block(rgba, w, h, bx, by) == b,
{
    let b2 = rgba_block(rgba, w, h, bx, by);
    assert(rgba_block_ok(b2, rgba, w, h, bx, by));
    assert forall|i: int| 0 <= i < 16 implies b2@[i] == b@[i] by {
        assert(b2@[i]@[0] == b@[i]@[0]);
        assert(b2@[i]@[1] == b@[i]@[1]);
        assert(b2@[i]@[2] == b@[i]@[2]);
        assert(b2@[i]@[3] == b@[i]@[3]);
        assert(b2@[i] =~= b@[i]);
    }
    assert(b2 =~= b);
}

/// An RGB block with the colour channels of an RGBA block is the one the BC3 stream names.
proof fn lemma_drop_alpha_unique(c: [[u8; 3]; 16], b: [[u8; 4]; 16])
    requires
        drop_alpha_ok(c, b),
    ensures
        (choose|c2: [[u8; 3]; 16]| drop_alpha_ok(c2, b)) == c,
{
    let c2 = choose|c2: [[u8; 3]; 16]| drop_alpha_ok(c2, b);
    assert(drop_alpha_ok(c2, b));
    assert forall|i: int| 0 <= i < 16 implies c2@[i] == c@[i] by {
        assert(c2@[i]@[0] == c@[i]@[0]);
        assert(c2@[i]@[1] == c@[i]@[1]);
        assert(c2@[i]@[2] == c@[i]@[2]);
        assert(c2@[i] =~= c@[i]);
    }
    assert(c2 =~= c);
}

/// The block-grid position `k` as block coordinates.
proof fn lemma_block_pos(k: int, bw: int, bh: int)
    requires
        bw >= 1,
        0 <= k < bw * bh,
    ensures
        0 <= k % bw < bw,
        0 <= k / bw < bh,
{
    vstd::arithmetic::div_mod::lemma_fundamental_div_mod(k, bw);
    assert(k / bw < bh) by (nonlinear_arith)
        requires
            0 <= k < bw * bh,
            k == bw * (k / bw) + k % bw,
            0 <= k % bw,
            bw >= 1,
    ;
}

/// Append the bytes of `src`.
fn push_all(out: &mut Vec<u8>, src: &[u8])
    ensures
        final(out)@ == old(out)@ + src@,
{
    let mut j: usize = 0;
    while j < src.len()
        invariant
            j <= src@.len(),
            out@ == old(out)@ + src@.subrange(0, j as int),
        decreases src@.len() - j,
    {
        out.push(src[j]);
        j = j + 1;
        assert(out@ =~= old(out)@ + src@.subrange(0, j as int));
    }
    assert(src@.subrange(0, src@.len() as int) =~= src@);
}

/// Block-grid bounds: `bx * 4` and `by * 4` stay inside the image's padded extent.
proof fn lemma_block_origin(k: int, bw: int, bh: int, w: int, h: int)
    requires
        bw == blocks_for(w),
        bh == blocks_for(h),
        w >= 1,
        h >= 1,
        0 <= k < bw * bh,
    ensures
        0 <= (k % bw) * 4 <= w - 1,
        0 <= (k / bw) * 4 <= h - 1,
{
    lemma_block_pos(k, bw, bh);
}

/// Encode an RGB image as BC1 blocks, row-major over the block grid.
pub fn encode_bc1(rgb: &[u8], w: u32, h: u32) -> (out: Vec<u8>)
    requires
        rgb@.len() == 3 * w * h,
        w + 3 <= u32::MAX,
        h + 3 <= u32::MAX,
    ensures
        out@ == bc1_stream(rgb@, w as int, h as int, blocks_for(w as int) * blocks_for(h as int)),
{
    let bw = (w + 3) / 4;
    let bh = (h + 3) / 4;
    let mut out: Vec<u8> = Vec::new();
    if w == 0 || h == 0 {
        assert(bw * bh == 0) by (nonlinear_arith)
            requires
                bw == 0 || bh == 0,
        ;
        return out;
    }
    assert((bw as u64) * (bh as u64) <= 0x1000_0000_0000_0000) by (nonlinear_arith)
        requires
            bw <= 0x4000_0000,
            bh <= 0x4000_0000,
    ;
    let total = (bw as u64) * (bh as u64);
    let mut k: u64 = 0;
    while k < total
        invariant
            bw == blocks_for(w as int),
            bh == blocks_for(h as int),
            total == bw * bh,
            w >= 1,
            h >= 1,
            rgb@.len() == 3 * w * h,
            w + 3 <= u32::MAX,
            h + 3 <= u32::MAX,
            k <= total,
            out@ == bc1_stream(rgb@, w as int, h as int, k as int),
        decreases total - k,
    {
        proof {
            lemma_block_origin(k as int, bw as int, bh as int, w as int, h as int);
        }
        let bx = ((k % (bw as u64)) * 4) as u32;
        let by = ((k / (bw as u64)) * 4) as u32;
        let block = extract_block_rgb(rgb, w, h, bx, by);
        let enc = encode_bc1_block(&block);
        proof {
            lemma_rgb_block_unique(block, rgb@, w as int, h as int, bx as int, by as int);
        }
        push_all(&mut out, &enc);
        k = k + 1;
    }
    out
}

/// The colour channels of an RGBA block.
fn drop_alpha(block: &[[u8; 4]; 16]) -> (rgb_block: [[u8; 3]; 16])
    ensures
        drop_alpha_ok(rgb_block, *block),
{
    let mut rgb_block = [[0u8; 3]; 16];
    let mut i: usize = 0;
    while i < 16
        invariant
            i <= 16,
            forall|j: int, c: int|
                0 <= j < i && 0 <= c < 3 ==> #[trigger] rgb_block@[j]@[c] == block@[j]@[c],
        decreases 16 - i,
    {
        let ghost before = rgb_block;
        rgb_block[i] = [block[i][0], block[i][1], block[i][2]];
        assert forall|j: int, c: int| 0 <= j < i + 1 && 0 <= c < 3 implies #[trigger] rgb_block@[j]@[c]
            == block@[j]@[c] by {
            if j < i {
                assert(rgb_block@[j] == before@[j]);
            }
        }
        i = i + 1;
    }
    rgb_block
}

/// Encode an RGBA image as BC3 blocks (alpha block then colour block), row-major over
/// the block grid.
pub fn encode_bc3(rgba: &[u8], w: u32, h: u32) -> (out: Vec<u8>)
    requires
        rgba@.len() == 4 * w * h,
        w + 3 <= u32::MAX,
        h + 3 <= u32::MAX,
    ensures
        out@ == bc3_stream(rgba@, w as int, h as int, blocks_for(w as int) * blocks_for(h as int)),
{
    let bw = (w + 3) / 4;
    let bh = (h + 3) / 4;
    let mut out: Vec<u8> = Vec::new();
    if w == 0 || h == 0 {
        assert(bw * bh == 0) by (nonlinear_arith)
            requires
                bw == 0 || bh == 0,
        ;
        return out;
    }
    assert((bw as u64) * (bh as u64) <= 0x1000_0000_0000_0000) by (nonlinear_arith)
        requires
            bw <= 0x4000_0000,
            bh <= 0x4000_0000,
    ;
    let total = (bw as u64) * (bh as u64);
    let mut k: u64 = 0;
    while k < total
        invariant
            bw == blocks_for(w as int),
            bh == blocks_for(h as int),
            total == bw * bh,
            w >= 1,
            h >= 1,
            rgba@.len() == 4 * w * h,
            w + 3 <= u32::MAX,
            h + 3 <= u32::MAX,
            k <= total,
            out@ == bc3_stream(rgba@, w as int, h as int, k as int),
        decreases total - k,
    {
        proof {
            lemma_block_origin(k as int, bw as int, bh as int, w as int, h as int);
        }
        let bx = ((k % (bw as u64)) * 4) as u32;
        let by = ((k / (bw as u64)) * 4) as u32;
        let block = extract_block_rgba(rgba, w, h, bx, by);
        let alpha = encode_bc3_alpha_block(&block);
        let rgb_block = drop_alpha(&block);
        let colour = encode_bc1_block(&rgb_block);
        proof {
            lemma_rgba_block_unique(block, rgba@, w as int, h as int, bx as int, by as int);
            lemma_drop_alpha_unique(rgb_block, block);
        }
        let ghost before = out@;
        push_all(&mut out, &alpha);
        push_all(&mut out, &colour);
        assert(out@ =~= before + alpha@ + colour@);
        k = k + 1;
    }
    out
}

} // verus!
