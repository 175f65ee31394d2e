//! A small PNG writer, so that the scripted history can hold pictures.
//!
//! A PNG may store its pixels uncompressed: a deflate stream made of stored
//! blocks is a legal deflate stream. What comes out is a truecolour, 8-bit,
//! non-interlaced image, which is the most ordinary shape there is.

use vstd::prelude::*;

verus! {

/// A number in four bytes, the high ones first.
pub open spec fn be32(n: u32) -> Seq<u8> {
    seq![
        (n / 0x100_0000) as u8,
        (n / 0x1_0000 % 0x100) as u8,
        (n / 0x100 % 0x100) as u8,
        (n % 0x100) as u8,
    ]
}

/// A number in two bytes, the low one first.
pub open spec fn le16(n: u16) -> Seq<u8> {
    seq![(n % 0x100) as u8, (n / 0x100) as u8]
}

/// Write a number in four bytes, the high ones first.
fn put_be32(out: &mut Vec<u8>, n: u32)
    ensures
        final(out)@ == old(out)@ + be32(n),
{
    let ghost before = out@;
    out.push((n / 0x100_0000) as u8);
    out.push((n / 0x1_0000 % 0x100) as u8);
    out.push((n / 0x100 % 0x100) as u8);
    out.push((n % 0x100) as u8);
    assert(out@ =~= before + be32(n));
}

/// Write a number in two bytes, the low one first.
fn put_le16(out: &mut Vec<u8>, n: u16)
    ensures
        final(out)@ == old(out)@ + le16(n),
{
    let ghost before = out@;
    out.push((n % 0x100) as u8);
    out.push((n / 0x100) as u8);
    assert(out@ =~= before + le16(n));
}

/// Write the bytes from position `from` up to position `to`.
fn put_bytes(out: &mut Vec<u8>, bytes: &[u8], from: usize, to: usize)
    requires
        from <= to <= bytes@.len(),
    ensures
        final(out)@ == old(out)@ + bytes@.subrange(from as int, to as int),
{
    let ghost before = out@;
    let mut i: usize = from;
    assert(out@ =~= before + bytes@.subrange(from as int, from as int));
    while i < to
        invariant
            from <= i <= to <= bytes@.len(),
            out@ == before + bytes@.subrange(from as int, i as int),
        decreases to - i,
    {
        out.push(bytes[i]);
        i += 1;
        assert(out@ =~= before + bytes@.subrange(from as int, i as int));
    }
}

/// One bit of the division that a CRC is the remainder of, with the polynomial
/// that PNG prescribes, its bits reversed.
pub open spec fn crc_bit(c: u32) -> u32 {
    if c & 1 == 1 {
        (c >> 1) ^ 0xedb8_8320
    } else {
        c >> 1
    }
}

/// Four bits of the division.
pub open spec fn crc_nibble(c: u32) -> u32 {
    crc_bit(crc_bit(crc_bit(crc_bit(c))))
}

/// One byte of the division.
pub open spec fn crc_byte(c: u32, byte: u8) -> u32 {
    crc_nibble(crc_nibble(c ^ (byte as u32)))
}

/// The state of the division after some bytes.
pub open spec fn crc_state(data: Seq<u8>) -> u32
    decreases data.len(),
{
    if data.len() == 0 {
        0xffff_ffff
    } else {
        crc_byte(crc_state(data.drop_last()), data.last())
    }
}

/// The CRC of some bytes.
pub open spec fn crc(data: Seq<u8>) -> u32 {
    crc_state(data) ^ 0xffff_ffff
}

/// Four bits of the division depend on the low four bits alone; the others move
/// down.
proof fn lemma_nibble(c: u32)
    by (bit_vector)
    ensures
        crc_nibble(c) == (c >> 4u32) ^ crc_nibble(c & 0xf),
        c & 0xf < 16,
{
}

/// What four bits of the division make of each value of four bits.
proof fn lemma_table()
    by (bit_vector)
    ensures
        crc_nibble(0) == 0x0000_0000,
        crc_nibble(1) == 0x1db7_1064,
        crc_nibble(2) == 0x3b6e_20c8,
        crc_nibble(3) == 0x26d9_30ac,
        crc_nibble(4) == 0x76dc_4190,
        crc_nibble(5) == 0x6b6b_51f4,
        crc_nibble(6) == 0x4db2_6158,
        crc_nibble(7) == 0x5005_713c,
        crc_nibble(8) == 0xedb8_8320,
        crc_nibble(9) == 0xf00f_9344,
        crc_nibble(10) == 0xd6d6_a3e8,
        crc_nibble(11) == 0xcb61_b38c,
        crc_nibble(12) == 0x9b64_c2b0,
        crc_nibble(13) == 0x86d3_d2d4,
        crc_nibble(14) == 0xa00a_e278,
        crc_nibble(15) == 0xbdbd_f21c,
{
}

/// The table by which a CRC is computed four bits at a time.
fn nibble_entry(n: u32) -> (entry: u32)
    requires
        n < 16,
    ensures
        entry == crc_nibble(n),
{
    proof {
        lemma_table();
    }
    match n {
        0 => 0x0000_0000,
        1 => 0x1db7_1064,
        2 => 0x3b6e_20c8,
        3 => 0x26d9_30ac,
        4 => 0x76dc_4190,
        5 => 0x6b6b_51f4,
        6 => 0x4db2_6158,
        7 => 0x5005_713c,
        8 => 0xedb8_8320,
        9 => 0xf00f_9344,
        10 => 0xd6d6_a3e8,
        11 => 0xcb61_b38c,
        12 => 0x9b64_c2b0,
        13 => 0x86d3_d2d4,
        14 => 0xa00a_e278,
        _ => 0xbdbd_f21c,
    }
}

/// CRC-32 as PNG prescribes it, computed four bits at a time.
pub struct Crc32 {
    state: u32,
    written: Ghost<Seq<u8>>,
}

impl Crc32 {
    /// The bytes written so far.
    pub closed spec fn written(self) -> Seq<u8> {
        self.written@
    }

    /// What holds between any two writes.
    pub closed spec fn wf(self) -> bool {
        self.state == crc_state(self.written@)
    }

    /// Nothing written.
    pub fn new() -> (crc: Crc32)
        ensures
            crc.wf(),
            crc.written() == Seq::<u8>::empty(),
    {
        Crc32 { state: 0xffff_ffff, written: Ghost(Seq::empty()) }
    }

    /// Write some bytes.
    pub fn write(&mut self, data: &[u8])
        requires
            old(self).wf(),
        ensures
            final(self).wf(),
            final(self).written() == old(self).written() + data@,
    {
        let ghost before = self.written@;
        let mut state: u32 = self.state;
        let mut i: usize = 0;
        assert(before + data@.take(0) =~= before);
        while i < data.len()
            invariant
                i <= data@.len(),
                state == crc_state(before + data@.take(i as int)),
            decreases data@.len() - i,
        {
            let byte: u8 = data[i];
            proof {
                let next = before + data@.take(i + 1);
                assert(next.drop_last() =~= before + data@.take(i as int));
                assert(next.last() == byte);
            }
            let c: u32 = state ^ (byte as u32);
            proof {
                lemma_nibble(c);
            }
            let d: u32 = (c >> 4) ^ nibble_entry(c & 0xf);
            proof {
                lemma_nibble(d);
            }
            state = (d >> 4) ^ nibble_entry(d & 0xf);
            i += 1;
        }
        assert(data@.take(i as int) =~= data@);
        self.state = state;
        self.written = Ghost(before + data@);
    }

    /// The CRC of what was written.
    pub fn finish(self) -> (sum: u32)
        requires
            self.wf(),
        ensures
            sum == crc(self.written()),
    {
        self.state ^ 0xffff_ffff
    }
}

/// One and the sum of some bytes.
pub open spec fn adler_low(data: Seq<u8>) -> int
    decreases data.len(),
{
    if data.len() == 0 {
        1
    } else {
        adler_low(data.drop_last()) + data.last()
    }
}

/// The sum of the low sums of all beginnings of some bytes.
pub open spec fn adler_high(data: Seq<u8>) -> int
    decreases data.len(),
{
    if data.len() == 0 {
        0
    } else {
        adler_high(data.drop_last()) + adler_low(data)
    }
}

/// Adler-32: the two sums, each modulo the largest prime below 65536.
pub open spec fn adler(data: Seq<u8>) -> int {
    adler_high(data) % 65_521 * 65_536 + adler_low(data) % 65_521
}

/// Adler-32, the checksum a zlib stream ends with.
pub fn adler32(data: &[u8]) -> (sum: u32)
    ensures
        sum == adler(data@),
{
    let mut a: u32 = 1;
    let mut b: u32 = 0;
    let mut i: usize = 0;
    while i < data.len()
        invariant
            i <= data@.len(),
            a == adler_low(data@.take(i as int)) % 65_521,
            b == adler_high(data@.take(i as int)) % 65_521,
            a < 65_521,
            b < 65_521,
        decreases data@.len() - i,
    {
        proof {
            let next = data@.take(i + 1);
            assert(next.drop_last() =~= data@.take(i as int));
            assert(next.last() == data@[i as int]);
            let (low, high) = (adler_low(data@.take(i as int)), adler_high(data@.take(i as int)));
            vstd::arithmetic::div_mod::lemma_add_mod_noop(
                low,
                data@[i as int] as int,
                65_521,
            );
            vstd::arithmetic::div_mod::lemma_add_mod_noop(high, adler_low(next), 65_521);
            vstd::arithmetic::div_mod::lemma_small_mod(data@[i as int] as nat, 65_521);
            vstd::arithmetic::div_mod::lemma_small_mod(a as nat, 65_521);
            vstd::arithmetic::div_mod::lemma_small_mod(b as nat, 65_521);
        }
        a = (a + data[i] as u32) % 65_521;
        b = (b + a) % 65_521;
        i += 1;
    }
    assert(data@.take(i as int) =~= data@);
    b * 65_536 + a
}

/// The most bytes that one stored block holds: its length has sixteen bits.
pub const BLOCK_MAX: usize = 65_535;

/// A stored block: whether it is the last, its length, the complement of its
/// length, and its bytes.
pub open spec fn block(last: bool, data: Seq<u8>) -> Seq<u8> {
    seq![
        if last {
            1u8
        } else {
            0u8
        },
    ] + le16(data.len() as u16) + le16((65_535 - data.len()) as u16) + data
}

/// Some bytes as stored blocks, as few as will do. No bytes are one empty block.
pub open spec fn blocks(data: Seq<u8>) -> Seq<u8>
    decreases data.len(),
{
    if data.len() <= 65_535 {
        block(true, data)
    } else {
        block(false, data.take(65_535)) + blocks(data.skip(65_535))
    }
}

/// Some bytes as a zlib stream of stored blocks.
pub open spec fn stream(data: Seq<u8>) -> Seq<u8> {
    seq![0x78u8, 0x01u8] + blocks(data) + be32(adler(data) as u32)
}

/// Some bytes as a zlib stream of stored (uncompressed) deflate blocks.
pub fn zlib_stored(data: &[u8]) -> (out: Vec<u8>)
    ensures
        out@ == stream(data@),
{
    let mut out: Vec<u8> = Vec::new();
    out.push(0x78);
    out.push(0x01);
    let n: usize = data.len();
    let mut from: usize = 0;
    let ghost head = seq![0x78u8, 0x01u8];
    proof {
        assert(data@.skip(0) =~= data@);
        assert(out@ =~= head);
    }
    loop
        invariant_except_break
            out@ + blocks(data@.skip(from as int)) == head + blocks(data@),
        invariant
            from <= n == data@.len(),
            head == seq![0x78u8, 0x01u8],
        ensures
            out@ == head + blocks(data@),
        decreases n - from,
    {
        let ghost before = out@;
        let ghost rest = data@.skip(from as int);
        let last = n - from <= BLOCK_MAX;
        let to: usize = if last {
            n
        } else {
            from + BLOCK_MAX
        };
        let size: u16 = (to - from) as u16;
        out.push(
            if last {
                1
            } else {
                0
            },
        );
        put_le16(&mut out, size);
        put_le16(&mut out, 65_535 - size);
        put_bytes(&mut out, data, from, to);
        proof {
            let part = data@.subrange(from as int, to as int);
            assert(out@ =~= before + block(last, part));
            if last {
                assert(part =~= rest);
            } else {
                assert(part =~= rest.take(65_535));
                assert(rest.skip(65_535) =~= data@.skip(to as int));
                assert(out@ + blocks(data@.skip(to as int)) =~= before + blocks(rest));
            }
        }
        if last {
            break;
        }
        from = to;
    }
    let sum: u32 = adler32(data);
    put_be32(&mut out, sum);
    assert(out@ =~= stream(data@));
    out
}

/// What stored blocks hold, and what comes after the last; `None` where they are
/// not well formed.
pub open spec fn unpack(s: Seq<u8>) -> Option<(Seq<u8>, Seq<u8>)>
    decreases s.len(),
{
    if s.len() < 5 {
        None
    } else {
        let size = s[1] + s[2] * 256;
        let complement = s[3] + s[4] * 256;
        if size + complement != 65_535 || s.len() < 5 + size || s[0] > 1 {
            None
        } else if s[0] == 1 {
            Some((s.subrange(5, 5 + size), s.skip(5 + size)))
        } else {
            match unpack(s.skip(5 + size)) {
                Some((data, rest)) => Some((s.subrange(5, 5 + size) + data, rest)),
                None => None,
            }
        }
    }
}

/// A stored block is read back.
proof fn lemma_block(last: bool, data: Seq<u8>, rest: Seq<u8>)
    requires
        data.len() <= 65_535,
    ensures
        ({
            let s = block(last, data) + rest;
            &&& s.len() == 5 + data.len() + rest.len()
            &&& s[0] == if last {
                1u8
            } else {
                0u8
            }
            &&& s[1] + s[2] * 256 == data.len()
            &&& s[3] + s[4] * 256 == 65_535 - data.len()
            &&& s.subrange(5, (5 + data.len()) as int) == data
            &&& s.skip((5 + data.len()) as int) == rest
        }),
{
    let s = block(last, data) + rest;
    let n = data.len() as u16;
    assert(s.subrange(5, (5 + data.len()) as int) =~= data);
    assert(s.skip((5 + data.len()) as int) =~= rest);
    assert(s[1] == (n % 0x100) as u8 && s[2] == (n / 0x100) as u8);
    let m = (65_535 - data.len()) as u16;
    assert(s[3] == (m % 0x100) as u8 && s[4] == (m / 0x100) as u8);
}

/// A stored stream carries the bytes it was given: its blocks are well formed, hold
/// exactly those bytes, and end where the checksum starts.
pub proof fn a_stored_stream_carries_its_bytes(data: Seq<u8>, rest: Seq<u8>)
    ensures
        unpack(blocks(data) + rest) == Some((data, rest)),
    decreases data.len(),
{
    if data.len() <= 65_535 {
        lemma_block(true, data, rest);
    } else {
        let (part, more) = (data.take(65_535), data.skip(65_535));
        a_stored_stream_carries_its_bytes(more, rest);
        lemma_block(false, part, blocks(more) + rest);
        assert(blocks(data) + rest =~= block(false, part) + (blocks(more) + rest));
        assert(part + more =~= data);
    }
}

/// Different bytes make different streams.
pub proof fn streams_keep_bytes_apart(a: Seq<u8>, b: Seq<u8>)
    requires
        stream(a) == stream(b),
    ensures
        a == b,
{
    let (x, y) = (be32(adler(a) as u32), be32(adler(b) as u32));
    assert(stream(a).skip(2) =~= blocks(a) + x);
    assert(stream(b).skip(2) =~= blocks(b) + y);
    a_stored_stream_carries_its_bytes(a, x);
    a_stored_stream_carries_its_bytes(b, y);
}

/// A chunk: its length, its kind, its payload, and the CRC of kind and payload.
pub open spec fn chunk_of(kind: Seq<u8>, payload: Seq<u8>) -> Seq<u8> {
    be32(payload.len() as u32) + kind + payload + be32(crc(kind + payload))
}

/// Write a chunk.
fn chunk(out: &mut Vec<u8>, kind: [u8; 4], payload: &Vec<u8>)
    ensures
        final(out)@ == old(out)@ + chunk_of(kind@, payload@),
{
    let ghost before = out@;
    put_be32(out, payload.len() as u32);
    put_bytes(out, &kind, 0, 4);
    assert(kind@.subrange(0, 4) =~= kind@);
    put_bytes(out, payload.as_slice(), 0, payload.len());
    assert(payload@.subrange(0, payload@.len() as int) =~= payload@);
    let mut sum = Crc32::new();
    sum.write(&kind);
    sum.write(payload.as_slice());
    assert(Seq::<u8>::empty() + kind@ =~= kind@);
    put_be32(out, sum.finish());
    assert(out@ =~= before + chunk_of(kind@, payload@));
}

/// The eight bytes every PNG begins with.
pub open spec fn signature() -> Seq<u8> {
    seq![0x89u8, 0x50u8, 0x4eu8, 0x47u8, 0x0du8, 0x0au8, 0x1au8, 0x0au8]
}

/// The header of an image: its size, eight bits a sample, truecolour, not
/// interlaced.
pub open spec fn header(width: u32, height: u32) -> Seq<u8> {
    be32(width) + be32(height) + seq![8u8, 2u8, 0u8, 0u8, 0u8]
}

/// A PNG of these scan lines.
pub open spec fn png(width: u32, height: u32, raw: Seq<u8>) -> Seq<u8> {
    signature() + chunk_of(seq![0x49u8, 0x48u8, 0x44u8, 0x52u8], header(width, height))
        + chunk_of(seq![0x49u8, 0x44u8, 0x41u8, 0x54u8], stream(raw)) + chunk_of(
        seq![0x49u8, 0x45u8, 0x4eu8, 0x44u8],
        Seq::empty(),
    )
}

/// Whether pixel `x` of a scan line is the one that `paint` draws.
pub open spec fn is_pixel<F: Fn(u32, u32) -> [u8; 3]>(
    paint: F,
    x: u32,
    y: u32,
    line: Seq<u8>,
) -> bool {
    exists|colour: [u8; 3]|
        {
            &&& #[trigger] call_ensures(paint, (x, y), colour)
            &&& line[1 + 3 * x] == colour[0]
            &&& line[2 + 3 * x] == colour[1]
            &&& line[3 + 3 * x] == colour[2]
        }
}

/// Whether the first `n` pixels of a scan line are those that `paint` draws,
/// behind the filter byte.
pub open spec fn is_line<F: Fn(u32, u32) -> [u8; 3]>(
    paint: F,
    n: int,
    y: u32,
    line: Seq<u8>,
) -> bool {
    &&& line.len() == 1 + 3 * n
    &&& line[0] == 0
    &&& forall|x: u32| x < n ==> #[trigger] is_pixel(paint, x, y, line)
}

/// Scan lines one after the other.
pub open spec fn all_lines(lines: Seq<Seq<u8>>) -> Seq<u8>
    decreases lines.len(),
{
    if lines.len() == 0 {
        Seq::empty()
    } else {
        all_lines(lines.drop_last()) + lines.last()
    }
}

/// Whether scan lines are those that `paint` draws.
pub open spec fn is_painting<F: Fn(u32, u32) -> [u8; 3]>(
    paint: F,
    width: u32,
    lines: Seq<Seq<u8>>,
) -> bool {
    forall|y: u32| y < lines.len() ==> is_line(paint, width as int, y, #[trigger] lines[y as int])
}

/// Draw one scan line behind what is there.
fn put_line<F: Fn(u32, u32) -> [u8; 3]>(raw: &mut Vec<u8>, width: u32, y: u32, paint: &F) -> (line:
    Ghost<Seq<u8>>)
    requires
        forall|x: u32| x < width ==> call_requires(*paint, (x, y)),
    ensures
        final(raw)@ == old(raw)@ + line@,
        is_line(*paint, width as int, y, line@),
{
    let ghost before = raw@;
    raw.push(0);
    let ghost mut line = seq![0u8];
    assert(raw@ =~= before + line);
    let mut x: u32 = 0;
    while x < width
        invariant
            x <= width,
            raw@ == before + line,
            is_line(*paint, x as int, y, line),
            forall|x: u32| x < width ==> call_requires(*paint, (x, y)),
        decreases width - x,
    {
        let colour = paint(x, y);
        let ghost old_line = line;
        raw.push(colour[0]);
        raw.push(colour[1]);
        raw.push(colour[2]);
        proof {
            line = line + seq![colour[0], colour[1], colour[2]];
            assert(raw@ =~= before + line);
            assert forall|k: u32| k < x + 1 implies #[trigger] is_pixel(*paint, k, y, line) by {
                if k < x {
                    assert(is_pixel(*paint, k, y, old_line));
                    let c = choose|c: [u8; 3]|
                        {
                            &&& #[trigger] call_ensures(*paint, (k, y), c)
                            &&& old_line[1 + 3 * k] == c[0]
                            &&& old_line[2 + 3 * k] == c[1]
                            &&& old_line[3 + 3 * k] == c[2]
                        };
                    assert(call_ensures(*paint, (k, y), c));
                } else {
                    assert(call_ensures(*paint, (k, y), colour));
                }
            }
        }
        x += 1;
    }
    Ghost(line)
}

/// A truecolour PNG, with each pixel drawn by `paint`.
pub fn encode<F: Fn(u32, u32) -> [u8; 3]>(width: u32, height: u32, paint: F) -> (out: Vec<u8>)
    requires
        height * (1 + width * 3) <= u32::MAX,
        forall|x: u32, y: u32| x < width && y < height ==> call_requires(paint, (x, y)),
    ensures
        exists|lines: Seq<Seq<u8>>|
            {
                &&& lines.len() == height
                &&& #[trigger] is_painting(paint, width, lines)
                &&& out@ == png(width, height, all_lines(lines))
            },
{
    let mut raw: Vec<u8> = Vec::new();
    let ghost mut lines: Seq<Seq<u8>> = Seq::empty();
    let mut y: u32 = 0;
    assert(raw@ =~= all_lines(lines));
    while y < height
        invariant
            y <= height,
            lines.len() == y,
            raw@ == all_lines(lines),
            is_painting(paint, width, lines),
            forall|x: u32, y: u32| x < width && y < height ==> call_requires(paint, (x, y)),
        decreases height - y,
    {
        let line = put_line(&mut raw, width, y, &paint);
        proof {
            let more = lines.push(line@);
            assert(more.drop_last() =~= lines);
            assert forall|k: u32| k < more.len() implies is_line(
                paint,
                width as int,
                k,
                #[trigger] more[k as int],
            ) by {
                if k < y {
                    assert(more[k as int] == lines[k as int]);
                }
            }
            lines = more;
        }
        y += 1;
    }
    let mut head: Vec<u8> = Vec::new();
    put_be32(&mut head, width);
    put_be32(&mut head, height);
    head.push(8);
    head.push(2);
    head.push(0);
    head.push(0);
    head.push(0);
    assert(head@ =~= header(width, height));
    let mut out: Vec<u8> = Vec::new();
    out.push(0x89);
    out.push(0x50);
    out.push(0x4e);
    out.push(0x47);
    out.push(0x0d);
    out.push(0x0a);
    out.push(0x1a);
    out.push(0x0a);
    assert(out@ =~= signature());
    let packed = zlib_stored(raw.as_slice());
    chunk(&mut out, [0x49, 0x48, 0x44, 0x52], &head);
    chunk(&mut out, [0x49, 0x44, 0x41, 0x54], &packed);
    let nothing: Vec<u8> = Vec::new();
    chunk(&mut out, [0x49, 0x45, 0x4e, 0x44], &nothing);
    proof {
        assert([0x49u8, 0x48u8, 0x44u8, 0x52u8]@ =~= seq![0x49u8, 0x48u8, 0x44u8, 0x52u8]);
        assert([0x49u8, 0x44u8, 0x41u8, 0x54u8]@ =~= seq![0x49u8, 0x44u8, 0x41u8, 0x54u8]);
        assert([0x49u8, 0x45u8, 0x4eu8, 0x44u8]@ =~= seq![0x49u8, 0x45u8, 0x4eu8, 0x44u8]);
        assert(nothing@ =~= Seq::<u8>::empty());
        assert(is_painting(paint, width, lines));
    }
    out
}

/// A number is read back from its four bytes, and from its two.
pub proof fn numbers_are_read_back_from_their_bytes(n: u32, m: u16)
    ensures
        be32(n).len() == 4,
        be32(n)[0] * 16_777_216 + be32(n)[1] * 65_536 + be32(n)[2] * 256 + be32(n)[3] == n,
        le16(m).len() == 2,
        le16(m)[0] + le16(m)[1] * 256 == m,
{
    assert(be32(n)[0] == n / 0x100_0000);
    assert(be32(n)[1] == n / 0x1_0000 % 0x100);
    assert(be32(n)[2] == n / 0x100 % 0x100);
    assert(be32(n)[3] == n % 0x100);
    assert(le16(m)[0] == m % 0x100);
    assert(le16(m)[1] == m / 0x100);
}

/// A checksum goes on byte by byte: the low sum by the byte, the high one by the low.
pub proof fn a_checksum_goes_on_byte_by_byte(data: Seq<u8>, byte: u8)
    ensures
        adler_low(Seq::empty()) == 1,
        adler_high(Seq::empty()) == 0,
        adler_low(data.push(byte)) == adler_low(data) + byte,
        adler_high(data.push(byte)) == adler_high(data) + adler_low(data) + byte,
        adler(data) % 65_536 == adler_low(data) % 65_521,
        adler(data) / 65_536 == adler_high(data) % 65_521,
{
    assert(data.push(byte).drop_last() =~= data);
}

/// A chunk says how long it is, what it is and what it holds, in that order, and ends
/// with a checksum over the last two.
pub proof fn a_chunk_says_what_it_holds(kind: Seq<u8>, payload: Seq<u8>)
    requires
        kind.len() == 4,
        payload.len() <= u32::MAX,
    ensures
        chunk_of(kind, payload).len() == payload.len() + 12,
        chunk_of(kind, payload)[0] * 16_777_216 + chunk_of(kind, payload)[1] * 65_536 + chunk_of(
            kind,
            payload,
        )[2] * 256 + chunk_of(kind, payload)[3] == payload.len(),
        chunk_of(kind, payload).subrange(4, 8) == kind,
        chunk_of(kind, payload).subrange(8, 8 + payload.len() as int) == payload,
        chunk_of(kind, payload).skip(8 + payload.len() as int) == be32(crc(kind + payload)),
{
    let c = chunk_of(kind, payload);
    numbers_are_read_back_from_their_bytes(payload.len() as u32, 0);
    numbers_are_read_back_from_their_bytes(crc(kind + payload), 0);
    let size = be32(payload.len() as u32);
    assert(c[0] == size[0] && c[1] == size[1] && c[2] == size[2] && c[3] == size[3]);
    assert(c.subrange(4, 8) =~= kind);
    assert(c.subrange(8, 8 + payload.len() as int) =~= payload);
    assert(c.skip(8 + payload.len() as int) =~= be32(crc(kind + payload)));
}

/// A picture's header holds its width and then its height, eight bits a sample and
/// three samples a pixel.
pub proof fn a_header_holds_width_and_height(width: u32, height: u32)
    ensures
        header(width, height).len() == 13,
        header(width, height)[0] * 16_777_216 + header(width, height)[1] * 65_536 + header(
            width,
            height,
        )[2] * 256 + header(width, height)[3] == width,
        header(width, height)[4] * 16_777_216 + header(width, height)[5] * 65_536 + header(
            width,
            height,
        )[6] * 256 + header(width, height)[7] == height,
        header(width, height).skip(8) == seq![8u8, 2u8, 0u8, 0u8, 0u8],
{
    numbers_are_read_back_from_their_bytes(width, 0);
    numbers_are_read_back_from_their_bytes(height, 0);
    let h = header(width, height);
    let (w, t) = (be32(width), be32(height));
    assert(h[0] == w[0] && h[1] == w[1] && h[2] == w[2] && h[3] == w[3]);
    assert(h[4] == t[0] && h[5] == t[1] && h[6] == t[2] && h[7] == t[3]);
    assert(h.skip(8) =~= seq![8u8, 2u8, 0u8, 0u8, 0u8]);
}

/// Scan lines follow one another from the top.
pub proof fn scan_lines_follow_one_another(lines: Seq<Seq<u8>>, line: Seq<u8>)
    ensures
        all_lines(Seq::empty()) == Seq::<u8>::empty(),
        all_lines(lines.push(line)) == all_lines(lines) + line,
{
    assert(lines.push(line).drop_last() =~= lines);
}

/// A picture is painted pixel by pixel: each of its scan lines is behind a filter byte,
/// one after the other from the top, and each pixel has the three bytes that were
/// painted, in their order.
pub proof fn each_pixel_is_where_it_was_painted<F: Fn(u32, u32) -> [u8; 3]>(
    paint: F,
    width: u32,
    lines: Seq<Seq<u8>>,
    x: u32,
    y: u32,
)
    requires
        is_painting(paint, width, lines),
        lines.len() <= u32::MAX,
        x < width,
        y < lines.len(),
    ensures
        exists|colour: [u8; 3]|
            {
                let at = y * (1 + 3 * width) + 1 + 3 * x;
                &&& #[trigger] call_ensures(paint, (x, y), colour)
                &&& at + 3 <= all_lines(lines).len()
                &&& all_lines(lines)[at] == colour[0]
                &&& all_lines(lines)[at + 1] == colour[1]
                &&& all_lines(lines)[at + 2] == colour[2]
            },
        all_lines(lines)[y * (1 + 3 * width)] == 0,
{
    let line = lines[y as int];
    assert(is_line(paint, width as int, y, line));
    assert(is_pixel(paint, x, y, line));
    let size = 1 + 3 * width as int;
    assert forall|k: int| 0 <= k < lines.len() implies (#[trigger] lines[k]).len() == size by {
        assert(is_line(paint, width as int, k as u32, lines[(k as u32) as int]));
    }
    lemma_line_starts(lines, size, y as int);
    let colour = choose|colour: [u8; 3]|
        {
            &&& #[trigger] call_ensures(paint, (x, y), colour)
            &&& line[1 + 3 * x] == colour[0]
            &&& line[2 + 3 * x] == colour[1]
            &&& line[3 + 3 * x] == colour[2]
        };
    let start = y * size;
    let all = all_lines(lines);
    assert(start == y * (1 + 3 * width));
    assert(0 <= start && (y + 1) * size == start + size) by (nonlinear_arith)
        requires
            start == y * size,
            size >= 0,
    ;
    assert(all.subrange(start, start + size)[0] == all[start]);
    assert(all.subrange(start, start + size)[1 + 3 * x] == all[start + 1 + 3 * x]);
    assert(all.subrange(start, start + size)[2 + 3 * x] == all[start + 2 + 3 * x]);
    assert(all.subrange(start, start + size)[3 + 3 * x] == all[start + 3 + 3 * x]);
    assert(call_ensures(paint, (x, y), colour));
}

/// Where a scan line of a given length stands among all.
proof fn lemma_line_starts(lines: Seq<Seq<u8>>, size: int, y: int)
    requires
        0 <= y < lines.len(),
        size >= 0,
        forall|k: int| 0 <= k < lines.len() ==> (#[trigger] lines[k]).len() == size,
    ensures
        all_lines(lines).len() == lines.len() * size,
        (y + 1) * size <= all_lines(lines).len(),
        all_lines(lines).subrange(y * size, y * size + size) == lines[y],
    decreases lines.len(),
{
    let front = lines.drop_last();
    let n = front.len() as int;
    assert forall|k: int| 0 <= k < front.len() implies (#[trigger] front[k]).len() == size by {
        assert(front[k] == lines[k]);
    }
    lemma_all_lines_len(front, size);
    assert((n + 1) * size == n * size + size) by (nonlinear_arith);
    assert((y + 1) * size == y * size + size) by (nonlinear_arith);
    if y < n {
        lemma_line_starts(front, size, y);
        assert(0 <= y * size) by (nonlinear_arith)
            requires
                0 <= y,
                0 <= size,
        ;
        assert(all_lines(lines).subrange(y * size, y * size + size) =~= all_lines(front).subrange(
            y * size,
            y * size + size,
        ));
        assert(front[y] == lines[y]);
    } else {
        assert(all_lines(lines).subrange(y * size, y * size + size) =~= lines[y]);
    }
}

proof fn lemma_all_lines_len(lines: Seq<Seq<u8>>, size: int)
    requires
        size >= 0,
        forall|k: int| 0 <= k < lines.len() ==> (#[trigger] lines[k]).len() == size,
    ensures
        all_lines(lines).len() == lines.len() * size,
    decreases lines.len(),
{
    if lines.len() > 0 {
        let front = lines.drop_last();
        assert forall|k: int| 0 <= k < front.len() implies (#[trigger] front[k]).len() == size by {
            assert(front[k] == lines[k]);
        }
        lemma_all_lines_len(front, size);
        let n = front.len() as int;
        assert((n + 1) * size == n * size + size) by (nonlinear_arith);
        assert(lines[n].len() == size);
    } else {
        assert(0 * size == 0) by (nonlinear_arith);
    }
}

} // verus!
