//! Greyscale pictures as PNG files.
//!
//! The rows are stored without compression, each with the filter byte 0 in
//! front, in a zlib stream of stored blocks.

use crate::kernel::quotient_up;
use crate::stream::append;
use vstd::prelude::*;

verus! {

/// The bytes that every PNG file starts with.
pub const SIGNATURE: [u8; 8] = [0x89, 0x50, 0x4E, 0x47, 0x0D, 0x0A, 0x1A, 0x0A];

/// Kind of the chunk that describes the picture.
pub const IHDR: [u8; 4] = [0x49, 0x48, 0x44, 0x52];

/// Kind of the chunk that holds the rows.
pub const IDAT: [u8; 4] = [0x49, 0x44, 0x41, 0x54];

/// Kind of the last chunk.
pub const IEND: [u8; 4] = [0x49, 0x45, 0x4E, 0x44];

/// The reflected polynomial of CRC-32.
pub const CRC_POLYNOMIAL: u32 = 0xEDB8_8320;

/// The modulus of Adler-32.
pub const ADLER_MODULUS: u32 = 65_521;

/// Bytes that a stored block can hold.
pub const MAX_BLOCK: usize = 65_535;

/// The bytes of `word`, the most significant one first.
pub open spec fn word_bytes(word: u32) -> Seq<u8> {
    seq![
        (word / 16_777_216) as u8,
        (word / 65_536 % 256) as u8,
        (word / 256 % 256) as u8,
        (word % 256) as u8,
    ]
}

/// The number whose bytes from `at` on are the four bytes of `bytes`, the most
/// significant one first.
pub open spec fn word_at(bytes: Seq<u8>, at: int) -> int {
    bytes[at] * 16_777_216 + bytes[at + 1] * 65_536 + bytes[at + 2] * 256 + bytes[at + 3]
}

/// The register of CRC-32 after one bit.
pub open spec fn crc_shift(c: u32) -> u32 {
    if c & 1 == 1 {
        CRC_POLYNOMIAL ^ (c >> 1)
    } else {
        c >> 1
    }
}

/// The register of CRC-32 after `n` bits.
pub open spec fn crc_shifts(c: u32, n: nat) -> u32
    decreases n,
{
    if n == 0 {
        c
    } else {
        crc_shift(crc_shifts(c, (n - 1) as nat))
    }
}

/// The register of CRC-32, from `crc` on, behind `data`.
pub open spec fn crc_after(crc: u32, data: Seq<u8>) -> u32
    decreases data.len(),
{
    if data.len() == 0 {
        crc
    } else {
        crc_shifts(crc_after(crc, data.drop_last()) ^ data.last() as u32, 8)
    }
}

/// The CRC-32 of `data`.
pub open spec fn crc_of(data: Seq<u8>) -> u32 {
    crc_after(0xFFFF_FFFF, data) ^ 0xFFFF_FFFF
}

/// Shifting is linear.
proof fn shifts_linear(a: u32, b: u32, n: nat)
    ensures
        crc_shifts(a ^ b, n) == crc_shifts(a, n) ^ crc_shifts(b, n),
    decreases n,
{
    if n > 0 {
        shifts_linear(a, b, (n - 1) as nat);
        let x = crc_shifts(a, (n - 1) as nat);
        let y = crc_shifts(b, (n - 1) as nat);
        assert(crc_shift(x ^ y) == crc_shift(x) ^ crc_shift(y)) by (bit_vector);
    }
}

/// Bits that have not reached the end of the register only move.
proof fn shifts_move(y: u32, n: u32)
    requires
        y < 0x100_0000,
        n <= 8,
    ensures
        crc_shifts(y << 8, n as nat) == y << ((8 - n) as u32),
    decreases n,
{
    if n > 0 {
        shifts_move(y, (n - 1) as u32);
        let k = (9 - n) as u32;
        assert(crc_shift(y << k) == y << ((k - 1) as u32)) by (bit_vector)
            requires
                y < 0x100_0000,
                1 <= k <= 8,
        ;
    }
}

/// The register after a byte, by the table of the registers that start with
/// one byte.
proof fn shifts_by_table(x: u32)
    ensures
        crc_shifts(x, 8) == crc_shifts(x & 0xFF, 8) ^ (x >> 8),
        x & 0xFF < 256,
{
    let high = x >> 8;
    assert(x == (x & 0xFF) ^ (high << 8)) by (bit_vector)
        requires
            high == x >> 8,
    ;
    assert(high < 0x100_0000) by (bit_vector)
        requires
            high == x >> 8,
    ;
    assert(x & 0xFF < 256) by (bit_vector);
    shifts_linear(x & 0xFF, high << 8, 8);
    shifts_move(high, 8);
    assert(high << 0u32 == high) by (bit_vector);
}

/// The registers of CRC-32 after a byte, by the byte that they start with.
pub struct CrcTable {
    /// The registers.
    pub entries: [u32; 256],
}

impl CrcTable {
    /// Every entry is the register that its index leads to.
    pub open spec fn wf(self) -> bool {
        forall|n: int|
            0 <= n < 256 ==> #[trigger] self.entries@[n] == crc_shifts(n as u32, 8)
    }

    /// Computes the table.
    pub fn new() -> (table: Self)
        ensures
            table.wf(),
    {
        let mut entries: [u32; 256] = [0u32;256];
        let mut n: u32 = 0;
        while n < 256
            invariant
                n <= 256,
                forall|m: int|
                    0 <= m < n ==> #[trigger] entries@[m] == crc_shifts(m as u32, 8),
            decreases 256 - n,
        {
            let mut c: u32 = n;
            let mut k: u32 = 0;
            while k < 8
                invariant
                    k <= 8,
                    c == crc_shifts(n, k as nat),
                decreases 8 - k,
            {
                c = if c & 1 == 1 {
                    CRC_POLYNOMIAL ^ (c >> 1)
                } else {
                    c >> 1
                };
                k = k + 1;
            }
            entries[n as usize] = c;
            n = n + 1;
        }
        CrcTable { entries }
    }
}

/// The register of CRC-32 before the first byte.
pub fn crc32_init() -> (crc: u32)
    ensures
        crc == crc_after(0xFFFF_FFFF, Seq::empty()),
{
    0xFFFF_FFFF
}

/// The register of CRC-32 behind `data`.
pub fn crc32_update(table: &CrcTable, crc: u32, data: &[u8]) -> (r: u32)
    requires
        table.wf(),
    ensures
        r == crc_after(crc, data@),
{
    let mut r: u32 = crc;
    let mut i: usize = 0;
    while i < data.len()
        invariant
            i <= data@.len(),
            table.wf(),
            r == crc_after(crc, data@.take(i as int)),
        decreases data.len() - i,
    {
        let x: u32 = r ^ data[i] as u32;
        proof {
            shifts_by_table(x);
            assert(data@.take(i + 1).drop_last() =~= data@.take(i as int));
            let byte = data@[i as int] as u32;
            assert(x >> 8 == r >> 8) by (bit_vector)
                requires
                    x == r ^ byte,
                    byte < 256,
            ;
        }
        r = table.entries[(x & 0xFF) as usize] ^ (r >> 8);
        i = i + 1;
    }
    assert(data@.take(i as int) =~= data@);
    r
}

/// The CRC-32 that a register stands for.
pub fn crc32_finalize(crc: u32) -> (r: u32)
    ensures
        r == crc ^ 0xFFFF_FFFF,
{
    crc ^ 0xFFFF_FFFF
}

/// The lower sum of Adler-32: one more than the bytes add up to.
pub open spec fn adler_low(data: Seq<u8>) -> int
    decreases data.len(),
{
    if data.len() == 0 {
        1
    } else {
        (adler_low(data.drop_last()) + data.last()) % ADLER_MODULUS as int
    }
}

/// The upper sum of Adler-32: the lower sums behind each byte add up to it.
pub open spec fn adler_high(data: Seq<u8>) -> int
    decreases data.len(),
{
    if data.len() == 0 {
        0
    } else {
        (adler_high(data.drop_last()) + adler_low(data)) % ADLER_MODULUS as int
    }
}

/// The Adler-32 of `data`.
pub open spec fn adler_of(data: Seq<u8>) -> int {
    adler_high(data) * 65_536 + adler_low(data)
}

/// The Adler-32 of `data`.
pub fn adler32(data: &[u8]) -> (r: u32)
    ensures
        r == adler_of(data@),
{
    let mut a: u32 = 1;
    let mut b: u32 = 0;
    let mut i: usize = 0;
    while i < data.len()
        invariant
            i <= data@.len(),
            a == adler_low(data@.take(i as int)),
            b == adler_high(data@.take(i as int)),
            a < ADLER_MODULUS,
            b < ADLER_MODULUS,
        decreases data.len() - i,
    {
        assert(data@.take(i + 1).drop_last() =~= data@.take(i as int));
        a = (a + data[i] as u32) % ADLER_MODULUS;
        b = (b + a) % ADLER_MODULUS;
        i = i + 1;
    }
    assert(data@.take(i as int) =~= data@);
    b * 65_536 + a
}

/// The bytes of `n`, the less significant one first.
pub open spec fn half_bytes(n: int) -> Seq<u8> {
    seq![(n % 256) as u8, (n / 256) as u8]
}

/// The number whose bytes from `at` on are the two bytes of `bytes`, the less
/// significant one first.
pub open spec fn half_at(bytes: Seq<u8>, at: int) -> int {
    bytes[at] + bytes[at + 1] * 256
}

/// A stored block with the content `data`: whether it is the last one, its
/// length, the complement of its length, and the content.
pub open spec fn stored_block(data: Seq<u8>, last: bool) -> Seq<u8> {
    seq![
        if last {
            1u8
        } else {
            0u8
        },
    ] + half_bytes(data.len() as int) + half_bytes(MAX_BLOCK - data.len()) + data
}

/// `data` in stored blocks, of which all but the last are full.
pub open spec fn stored(data: Seq<u8>) -> Seq<u8>
    decreases data.len(),
{
    if data.len() == 0 {
        Seq::empty()
    } else if data.len() <= MAX_BLOCK {
        stored_block(data, true)
    } else {
        stored_block(data.take(MAX_BLOCK as int), false) + stored(data.skip(MAX_BLOCK as int))
    }
}

/// The zlib stream of `data`: the header, the blocks and the Adler-32.
pub open spec fn zlib(data: Seq<u8>) -> Seq<u8> {
    seq![0x78u8, 0x01u8] + stored(data) + word_bytes(adler_of(data) as u32)
}

/// Appends the bytes of `word`, the most significant one first.
fn push_word(out: &mut Vec<u8>, word: u32)
    ensures
        final(out)@ == old(out)@ + word_bytes(word),
{
    out.push((word / 16_777_216) as u8);
    out.push((word / 65_536 % 256) as u8);
    out.push((word / 256 % 256) as u8);
    out.push((word % 256) as u8);
    assert(out@ =~= old(out)@ + word_bytes(word));
}

/// Appends the bytes of `half`, the less significant one first.
fn push_half(out: &mut Vec<u8>, half: u16)
    ensures
        final(out)@ == old(out)@ + half_bytes(half as int),
{
    out.push((half % 256) as u8);
    out.push((half / 256) as u8);
    assert(out@ =~= old(out)@ + half_bytes(half as int));
}

/// The bytes behind the blocks do not matter to them.
proof fn stored_next(data: Seq<u8>, at: int)
    requires
        0 <= at < data.len(),
    ensures
        ({
            let rest = data.skip(at);
            let take = if rest.len() < MAX_BLOCK {
                rest.len() as int
            } else {
                MAX_BLOCK as int
            };
            stored(rest) == stored_block(data.subrange(at, at + take), at + take == data.len())
                + stored(data.skip(at + take))
        }),
{
    let rest = data.skip(at);
    if rest.len() <= MAX_BLOCK {
        assert(data.subrange(at, data.len() as int) =~= rest);
        assert(stored(data.skip(data.len() as int)) =~= Seq::empty());
        assert(stored_block(rest, true) + Seq::<u8>::empty() =~= stored_block(rest, true));
    } else {
        assert(rest.take(MAX_BLOCK as int) =~= data.subrange(at, at + MAX_BLOCK));
        assert(rest.skip(MAX_BLOCK as int) =~= data.skip(at + MAX_BLOCK));
    }
}

/// Frames `data` as a zlib stream of stored blocks.
pub fn zlib_encode(data: &[u8]) -> (out: Vec<u8>)
    ensures
        out@ == zlib(data@),
{
    let mut out: Vec<u8> = Vec::new();
    out.push(0x78);
    out.push(0x01);
    let ghost header = out@;
    assert(header =~= seq![0x78u8, 0x01u8]);
    let mut offset: usize = 0;
    proof {
        assert(data@.skip(0) =~= data@);
        assert(header + stored(data@) =~= out@ + stored(data@.skip(0)));
    }
    while offset < data.len()
        invariant
            offset <= data@.len(),
            header + stored(data@) == out@ + stored(data@.skip(offset as int)),
        decreases data.len() - offset,
    {
        let ghost before = out@;
        let remaining: usize = data.len() - offset;
        let take: usize = if remaining < MAX_BLOCK {
            remaining
        } else {
            MAX_BLOCK
        };
        let last: bool = remaining == take;
        out.push(
            if last {
                1u8
            } else {
                0u8
            },
        );
        push_half(&mut out, take as u16);
        push_half(&mut out, (MAX_BLOCK - take) as u16);
        append(&mut out, vstd::slice::slice_subrange(data, offset, offset + take));
        proof {
            stored_next(data@, offset as int);
            let content = data@.subrange(offset as int, offset + take);
            assert(out@ =~= before + stored_block(content, last));
            assert(out@ + stored(data@.skip(offset + take)) =~= before + (stored_block(
                content,
                last,
            ) + stored(data@.skip(offset + take))));
        }
        offset = offset + take;
    }
    assert(stored(data@.skip(offset as int)) =~= Seq::empty());
    assert(out@ =~= header + stored(data@));
    push_word(&mut out, adler32(data));
    out
}

/// A chunk of a PNG file: its length, its kind, its content, and the CRC-32 of
/// kind and content.
pub open spec fn chunk(kind: Seq<u8>, data: Seq<u8>) -> Seq<u8> {
    word_bytes(data.len() as u32) + kind + data + word_bytes(crc_of(kind + data))
}

/// The register of CRC-32 goes on where it stopped.
pub proof fn crc_append(crc: u32, a: Seq<u8>, b: Seq<u8>)
    ensures
        crc_after(crc, a + b) == crc_after(crc_after(crc, a), b),
    decreases b.len(),
{
    if b.len() == 0 {
        assert(a + b =~= a);
    } else {
        crc_append(crc, a, b.drop_last());
        assert((a + b).drop_last() =~= a + b.drop_last());
    }
}

/// Appends a chunk.
fn push_chunk(out: &mut Vec<u8>, table: &CrcTable, kind: &[u8; 4], data: &[u8])
    requires
        table.wf(),
        data@.len() <= u32::MAX,
    ensures
        final(out)@ == old(out)@ + chunk(kind@, data@),
{
    push_word(out, data.len() as u32);
    append(out, kind.as_slice());
    append(out, data);
    let crc: u32 = crc32_update(table, crc32_init(), kind.as_slice());
    let crc: u32 = crc32_update(table, crc, data);
    proof {
        crc_append(0xFFFF_FFFF, kind@, data@);
    }
    push_word(out, crc32_finalize(crc));
    assert(out@ =~= old(out)@ + chunk(kind@, data@));
}

/// What describes a picture of `width` by `height` greys of eight bits.
pub open spec fn header(width: u32, height: u32) -> Seq<u8> {
    word_bytes(width) + word_bytes(height) + seq![8u8, 0u8, 0u8, 0u8, 0u8]
}

/// The rows of a picture, each behind a filter byte.
pub open spec fn filtered_rows(width: int, height: int, pixels: Seq<u8>) -> Seq<u8>
    decreases height,
{
    if height <= 0 {
        Seq::empty()
    } else {
        filtered_rows(width, height - 1, pixels) + seq![0u8] + pixels.subrange(
            (height - 1) * width,
            height * width,
        )
    }
}

/// The PNG file of a picture.
pub open spec fn png(width: u32, height: u32, pixels: Seq<u8>) -> Seq<u8> {
    SIGNATURE@ + chunk(IHDR@, header(width, height)) + chunk(
        IDAT@,
        zlib(filtered_rows(width as int, height as int, pixels)),
    ) + chunk(IEND@, Seq::empty())
}

/// Bytes of the zlib stream of `len` bytes.
pub open spec fn zlib_len(len: int) -> int {
    len + 5 * quotient_up(len, MAX_BLOCK as int) + 6
}

/// A zlib stream has as many bytes as [`zlib_len`] says.
pub proof fn zlib_has_len(data: Seq<u8>)
    ensures
        zlib(data).len() == zlib_len(data.len() as int),
{
    stored_has_len(data);
}

/// Five bytes stand before each block.
proof fn stored_has_len(data: Seq<u8>)
    ensures
        stored(data).len() == data.len() + 5 * quotient_up(data.len() as int, MAX_BLOCK as int),
    decreases data.len(),
{
    if data.len() > MAX_BLOCK {
        let len = data.len() as int;
        stored_has_len(data.skip(MAX_BLOCK as int));
        assert((len - MAX_BLOCK - 1) / MAX_BLOCK as int == (len - 1) / MAX_BLOCK as int - 1);
    }
}

/// The rows fill up behind their filter bytes.
proof fn rows_have_len(width: int, height: int, pixels: Seq<u8>)
    requires
        0 <= width,
        0 <= height,
        height * width <= pixels.len(),
    ensures
        filtered_rows(width, height, pixels).len() == height * (width + 1),
    decreases height,
{
    if height > 0 {
        assert(0 <= (height - 1) * width <= height * width) by (nonlinear_arith)
            requires
                0 <= width,
                1 <= height,
        ;
        rows_have_len(width, height - 1, pixels);
        assert((height - 1) * (width + 1) + 1 + (height * width - (height - 1) * width) == height
            * (width + 1)) by (nonlinear_arith);
    } else {
        assert(height * (width + 1) == 0) by (nonlinear_arith)
            requires
                height == 0,
        ;
    }
}

/// The PNG file of a picture of `width` by `height` pixels, which `pixels`
/// holds row by row.
pub fn grayscale_png(width: u32, height: u32, pixels: &[u8]) -> (file: Vec<u8>)
    requires
        pixels@.len() == width * height,
        zlib_len((width + 1) * height) <= u32::MAX,
    ensures
        file@ == png(width, height, pixels@),
{
    let table = CrcTable::new();
    let mut file: Vec<u8> = Vec::new();
    append(&mut file, SIGNATURE.as_slice());
    let mut head: Vec<u8> = Vec::new();
    push_word(&mut head, width);
    push_word(&mut head, height);
    head.push(8);
    head.push(0);
    head.push(0);
    head.push(0);
    head.push(0);
    assert(head@ =~= header(width, height));
    push_chunk(&mut file, &table, &IHDR, head.as_slice());
    let raw: Vec<u8> = filter_rows(width as usize, height, pixels);
    proof {
        assert(width * height == height * width) by (nonlinear_arith);
        assert((width + 1) * height == height * (width + 1)) by (nonlinear_arith);
        rows_have_len(width as int, height as int, pixels@);
        zlib_has_len(raw@);
    }
    let packed: Vec<u8> = zlib_encode(raw.as_slice());
    push_chunk(&mut file, &table, &IDAT, packed.as_slice());
    let none: Vec<u8> = Vec::new();
    push_chunk(&mut file, &table, &IEND, none.as_slice());
    assert(none@ =~= Seq::empty());
    assert(file@ =~= png(width, height, pixels@));
    file
}

/// The rows of a picture, each behind a filter byte.
fn filter_rows(width: usize, height: u32, pixels: &[u8]) -> (raw: Vec<u8>)
    requires
        pixels@.len() == width * height,
    ensures
        raw@ == filtered_rows(width as int, height as int, pixels@),
{
    let mut raw: Vec<u8> = Vec::new();
    let len: usize = pixels.len();
    let mut start: usize = 0;
    let mut row: u32 = 0;
    while row < height
        invariant
            row <= height,
            len == pixels@.len() == width * height,
            start == row * width,
            raw@ == filtered_rows(width as int, row as int, pixels@),
        decreases height - row,
    {
        assert(row * width + width <= width * height) by (nonlinear_arith)
            requires
                row + 1 <= height,
                0 <= width,
        ;
        assert((row + 1) * width == row * width + width) by (nonlinear_arith);
        raw.push(0);
        append(&mut raw, vstd::slice::slice_subrange(pixels, start, start + width));
        assert(raw@ =~= filtered_rows(width as int, row + 1, pixels@));
        start = start + width;
        row = row + 1;
    }
    raw
}

/// Reads stored blocks up to the last one: their content, and what follows
/// them.
pub open spec fn read_stored(bytes: Seq<u8>) -> Option<(Seq<u8>, Seq<u8>)>
    decreases bytes.len(),
{
    if bytes.len() < 5 {
        None
    } else {
        let len = half_at(bytes, 1);
        if bytes[0] > 1 || half_at(bytes, 3) != MAX_BLOCK - len || bytes.len() < 5 + len {
            None
        } else {
            let content = bytes.subrange(5, 5 + len);
            let rest = bytes.skip(5 + len);
            if bytes[0] == 1 {
                Some((content, rest))
            } else {
                match read_stored(rest) {
                    Some((more, left)) => Some((content + more, left)),
                    None => None,
                }
            }
        }
    }
}

/// Reads a zlib stream of stored blocks.
pub open spec fn read_zlib(bytes: Seq<u8>) -> Option<Seq<u8>> {
    if bytes.len() < 2 || bytes[0] != 0x78 || (bytes[0] * 256 + bytes[1]) % 31 != 0 {
        None
    } else {
        match read_stored(bytes.skip(2)) {
            Some((data, rest)) => if rest.len() == 4 && word_at(rest, 0) == adler_of(data) {
                Some(data)
            } else {
                None
            },
            None => None,
        }
    }
}

/// Reads a chunk: its kind, its content, and what follows it.
pub open spec fn read_chunk(bytes: Seq<u8>) -> Option<(Seq<u8>, Seq<u8>, Seq<u8>)> {
    if bytes.len() < 12 || bytes.len() < 12 + word_at(bytes, 0) {
        None
    } else {
        let len = word_at(bytes, 0);
        let covered = bytes.subrange(4, 8 + len);
        if word_at(bytes, 8 + len) != crc_of(covered) {
            None
        } else {
            Some((bytes.subrange(4, 8), bytes.subrange(8, 8 + len), bytes.skip(12 + len)))
        }
    }
}

/// The bytes of a word give it back.
proof fn word_reads_back(before: Seq<u8>, word: u32, after: Seq<u8>)
    ensures
        word_at(before + word_bytes(word) + after, before.len() as int) == word,
{
}

/// Stored blocks give their content back.
pub proof fn stored_reads_back(data: Seq<u8>, rest: Seq<u8>)
    requires
        data.len() > 0,
    ensures
        read_stored(stored(data) + rest) == Some((data, rest)),
    decreases data.len(),
{
    let bytes = stored(data) + rest;
    if data.len() <= MAX_BLOCK {
        assert(bytes.subrange(5, 5 + data.len() as int) =~= data);
        assert(bytes.skip(5 + data.len() as int) =~= rest);
    } else {
        let first = data.take(MAX_BLOCK as int);
        let more = data.skip(MAX_BLOCK as int);
        stored_reads_back(more, rest);
        assert(bytes.subrange(5, 5 + MAX_BLOCK) =~= first);
        assert(bytes.skip(5 + MAX_BLOCK) =~= stored(more) + rest);
        assert(first + more =~= data);
    }
}

/// A zlib stream gives the content of its blocks back.
proof fn zlib_parts_read_back(blocks: Seq<u8>, data: Seq<u8>)
    requires
        read_stored(blocks + word_bytes(adler_of(data) as u32)) == Some(
            (data, word_bytes(adler_of(data) as u32)),
        ),
    ensures
        read_zlib(seq![0x78u8, 0x01u8] + blocks + word_bytes(adler_of(data) as u32)) == Some(data),
{
    let sum = word_bytes(adler_of(data) as u32);
    let bytes = seq![0x78u8, 0x01u8] + blocks + sum;
    adler_bounded(data);
    assert(bytes.skip(2) =~= blocks + sum);
    word_reads_back(Seq::empty(), adler_of(data) as u32, Seq::empty());
    assert(Seq::<u8>::empty() + sum + Seq::<u8>::empty() =~= sum);
}

/// A zlib stream gives its content back.
pub proof fn zlib_reads_back(data: Seq<u8>)
    requires
        data.len() > 0,
    ensures
        read_zlib(zlib(data)) == Some(data),
{
    stored_reads_back(data, word_bytes(adler_of(data) as u32));
    zlib_parts_read_back(stored(data), data);
}

/// Adler-32 is a word.
proof fn adler_bounded(data: Seq<u8>)
    ensures
        0 <= adler_low(data) < ADLER_MODULUS,
        0 <= adler_high(data) < ADLER_MODULUS,
        0 <= adler_of(data) <= u32::MAX,
{
}

/// A chunk gives its kind and its content back.
pub proof fn chunk_reads_back(kind: Seq<u8>, data: Seq<u8>, rest: Seq<u8>)
    requires
        kind.len() == 4,
        data.len() <= u32::MAX,
    ensures
        read_chunk(chunk(kind, data) + rest) == Some((kind, data, rest)),
{
    let bytes = chunk(kind, data) + rest;
    let len = data.len() as int;
    let sum = word_bytes(crc_of(kind + data));
    word_reads_back(Seq::empty(), len as u32, kind + data + sum + rest);
    assert(Seq::<u8>::empty() + word_bytes(len as u32) + (kind + data + sum + rest) =~= bytes);
    word_reads_back(word_bytes(len as u32) + kind + data, crc_of(kind + data), rest);
    assert(word_bytes(len as u32) + kind + data + sum + rest =~= bytes);
    assert(bytes.subrange(4, 8 + len) =~= kind + data);
    assert(bytes.subrange(4, 8) =~= kind);
    assert(bytes.subrange(8, 8 + len) =~= data);
    assert(bytes.skip(12 + len) =~= rest);
}

/// A picture in a PNG file: its width, its height and its pixels, row by row.
/// Only files with greys of eight bits, one chunk of rows, stored blocks and no
/// filters can be read.
pub open spec fn read_png(file: Seq<u8>) -> Option<(int, int, Seq<u8>)> {
    if file.len() < 8 || file.take(8) != SIGNATURE@ {
        None
    } else {
        match read_chunk(file.skip(8)) {
            Some((kind, head, behind_head)) => if kind != IHDR@ || head.len() != 13 || head.skip(8)
                != seq![8u8, 0u8, 0u8, 0u8, 0u8] {
                None
            } else {
                match read_chunk(behind_head) {
                    Some((kind, packed, behind_rows)) => if kind != IDAT@ || behind_rows != chunk(
                        IEND@,
                        Seq::empty(),
                    ) {
                        None
                    } else {
                        match read_zlib(packed) {
                            Some(raw) => read_rows(word_at(head, 0), word_at(head, 4), raw),
                            None => None,
                        }
                    },
                    None => None,
                }
            },
            None => None,
        }
    }
}

/// Takes the filter bytes off the rows of a picture.
pub open spec fn read_rows(width: int, height: int, raw: Seq<u8>) -> Option<(int, int, Seq<u8>)> {
    if raw.len() != height * (width + 1) || exists|row: int|
        0 <= row < height && raw[#[trigger] row_start(width, row)] != 0 {
        None
    } else {
        Some((width, height, row_pixels(width, height, raw)))
    }
}

/// Where a row starts.
pub open spec fn row_start(width: int, row: int) -> int {
    row * (width + 1)
}

/// The pixels of the first `height` rows.
pub open spec fn row_pixels(width: int, height: int, raw: Seq<u8>) -> Seq<u8>
    decreases height,
{
    if height <= 0 {
        Seq::empty()
    } else {
        let start = row_start(width, height - 1);
        row_pixels(width, height - 1, raw) + raw.subrange(start + 1, start + 1 + width)
    }
}

/// Rows give their pixels back.
proof fn rows_read_back(width: int, height: int, pixels: Seq<u8>, more: Seq<u8>)
    requires
        0 <= width,
        0 <= height,
        height * width <= pixels.len(),
    ensures
        row_pixels(width, height, filtered_rows(width, height, pixels) + more) == pixels.take(
            height * width,
        ),
        forall|row: int|
            0 <= row < height ==> (filtered_rows(width, height, pixels)
                + more)[#[trigger] row_start(width, row)] == 0,
    decreases height,
{
    let raw = filtered_rows(width, height, pixels) + more;
    if height > 0 {
        assert(0 <= (height - 1) * width <= height * width) by (nonlinear_arith)
            requires
                0 <= width,
                1 <= height,
        ;
        assert(height * width == (height - 1) * width + width) by (nonlinear_arith);
        let row = pixels.subrange((height - 1) * width, height * width);
        let behind = seq![0u8] + row + more;
        rows_have_len(width, height - 1, pixels);
        rows_read_back(width, height - 1, pixels, behind);
        assert(raw =~= filtered_rows(width, height - 1, pixels) + behind);
        let start = row_start(width, height - 1);
        assert(raw.subrange(start + 1, start + 1 + width) =~= row);
        assert(pixels.take((height - 1) * width) + row =~= pixels.take(height * width));
    } else {
        assert(height * width == 0) by (nonlinear_arith)
            requires
                height == 0,
        ;
        assert(pixels.take(height * width) =~= Seq::empty());
    }
}

/// What describes a picture gives its size back.
proof fn header_reads_back(width: u32, height: u32)
    ensures
        header(width, height).len() == 13,
        header(width, height).skip(8) == seq![8u8, 0u8, 0u8, 0u8, 0u8],
        word_at(header(width, height), 0) == width,
        word_at(header(width, height), 4) == height,
{
    let kind = seq![8u8, 0u8, 0u8, 0u8, 0u8];
    assert(header(width, height).skip(8) =~= kind);
    word_reads_back(Seq::empty(), width, word_bytes(height) + kind);
    assert(Seq::<u8>::empty() + word_bytes(width) + (word_bytes(height) + kind) =~= header(
        width,
        height,
    ));
    word_reads_back(word_bytes(width), height, kind);
}

/// A PNG file gives back what its chunks hold.
proof fn png_parts_read_back(head: Seq<u8>, rows: Seq<u8>, packed: Seq<u8>, file: Seq<u8>)
    requires
        head.len() == 13,
        head.skip(8) == seq![8u8, 0u8, 0u8, 0u8, 0u8],
        rows == chunk(IDAT@, packed),
        packed.len() <= u32::MAX,
        file == SIGNATURE@ + chunk(IHDR@, head) + rows + chunk(IEND@, Seq::empty()),
    ensures
        read_png(file) == match read_zlib(packed) {
            Some(raw) => read_rows(word_at(head, 0), word_at(head, 4), raw),
            None => None,
        },
{
    let end = chunk(IEND@, Seq::empty());
    chunk_reads_back(IHDR@, head, rows + end);
    chunk_reads_back(IDAT@, packed, end);
    let first = chunk(IHDR@, head);
    assert(file.take(8) =~= SIGNATURE@);
    assert(file.skip(8) =~= first + (rows + end));
}

/// A PNG file gives its picture back.
pub proof fn png_reads_back(width: u32, height: u32, pixels: Seq<u8>)
    requires
        height > 0,
        pixels.len() == width * height,
        zlib_len((width + 1) * height) <= u32::MAX,
    ensures
        read_png(png(width, height, pixels)) == Some((width as int, height as int, pixels)),
{
    let w = width as int;
    let h = height as int;
    let raw = filtered_rows(w, h, pixels);
    assert(w * h == h * w && (w + 1) * h == h * (w + 1)) by (nonlinear_arith);
    rows_have_len(w, h, pixels);
    assert(h * (w + 1) > 0) by (nonlinear_arith)
        requires
            h > 0,
            w >= 0,
    ;
    zlib_has_len(raw);
    zlib_reads_back(raw);
    header_reads_back(width, height);
    png_parts_read_back(
        header(width, height),
        chunk(IDAT@, zlib(raw)),
        zlib(raw),
        png(width, height, pixels),
    );
    rows_read_back(w, h, pixels, Seq::empty());
    assert(raw + Seq::<u8>::empty() =~= raw);
    assert(pixels.take(h * w) =~= pixels);
}

} // verus!
