//! Request encoding and response decoding for the single-range operations:
//! read/write of word registers and of bit relays, plus the shared
//! acknowledge decoding of all write operations.
//!
//! Every request frame is laid out as
//! `[0:2) sub-header 0x50,0x00 | [2:7) destination | [7:9) body length |
//! [9:11) reserved 0 | [11:13) command | [13:15) subcommand | body`,
//! all multi-byte fields little-endian; the body length equals the total
//! length minus 9. Word values travel as 16-bit little-endian pairs; bit
//! values are nibble-packed two per byte, the first in the 0x10 bit and the
//! second in the 0x01 bit.

use vstd::prelude::*;

use crate::device::{DeviceBit, DeviceWord};
use crate::frame::{
    b0_32, b1_32, b2_32, hi16, le16, lo16, parse_frame_status, spec_end_code, spec_frame_len,
    status_complete, status_incomplete, status_malformed, u16_from_le, Destination, FrameStatus,
};

verus! {

/// Outcome of attempting to decode one response frame from the whole
/// accumulated buffer.
///
/// `Incomplete` asks the caller to keep accumulating: no state is corrupted
/// by retrying with a longer buffer. `Malformed` means the buffer can never
/// become a valid frame and the operation must abort. `Done` reports the
/// recognized frame length (trailing bytes beyond it are untouched), the
/// end-code, and the decoded payload, which is empty whenever the end-code
/// is nonzero: the end-code is authoritative and payload bytes of a failed
/// operation are discarded, never partially trusted.
pub enum Decoded<T> {
    /// Too few bytes for a whole frame; keep reading.
    Incomplete,
    /// The bytes can never form a valid frame; abort.
    Malformed,
    /// A whole frame of `total` bytes was recognized.
    Done {
        /// Length in bytes of the recognized frame.
        total: usize,
        /// End-code reported by the remote side; 0 means success.
        end_code: u16,
        /// Decoded payload; empty when `end_code != 0`.
        payload: T,
    },
}

/// The 16-bit words that a byte sequence holds, little-endian, two bytes
/// per word; a trailing odd byte belongs to no word.
pub open spec fn spec_words_of(bytes: Seq<u8>) -> Seq<u16> {
    Seq::new((bytes.len() / 2) as nat, |i: int| le16(bytes[2 * i], bytes[2 * i + 1]))
}

/// The little-endian byte form of a word sequence.
pub open spec fn spec_word_bytes(ws: Seq<u16>) -> Seq<u8> {
    Seq::new((2 * ws.len()) as nat, |i: int| if i % 2 == 0 { lo16(ws[i / 2]) } else { hi16(ws[i / 2]) })
}

/// Reading words back from their byte form gives the original words.
pub proof fn lemma_words_roundtrip(ws: Seq<u16>)
    ensures
        spec_words_of(spec_word_bytes(ws)) == ws,
{
    let bs = spec_word_bytes(ws);
    assert forall|i: int| 0 <= i < ws.len() implies spec_words_of(bs)[i] == ws[i] by {
        assert(bs[2 * i] == lo16(ws[i]));
        assert(bs[2 * i + 1] == hi16(ws[i]));
        crate::frame::lemma_le16_split(ws[i]);
    }
    assert(spec_words_of(bs) =~= ws);
}

/// The byte that carries two bit values: the first in the 0x10 bit, the
/// second in the 0x01 bit.
pub open spec fn spec_bit_byte(first: bool, second: bool) -> u8 {
    if first && second {
        0x11
    } else if first {
        0x10
    } else if second {
        0x01
    } else {
        0x00
    }
}

/// The nibble-packed byte form of a bit sequence, two values per byte; an
/// odd count leaves the 0x01 bit of the final byte zero.
pub open spec fn spec_packed(bits: Seq<bool>) -> Seq<u8> {
    Seq::new(
        ((bits.len() + 1) / 2) as nat,
        |i: int|
            spec_bit_byte(
                bits[2 * i],
                if 2 * i + 1 < bits.len() {
                    bits[2 * i + 1]
                } else {
                    false
                },
            ),
    )
}

/// The bit values that a packed byte sequence holds: each byte yields two
/// booleans, high nibble nonzero then low nibble nonzero.
pub open spec fn spec_unpacked(bytes: Seq<u8>) -> Seq<bool> {
    Seq::new(
        (2 * bytes.len()) as nat,
        |i: int|
            if i % 2 == 0 {
                bytes[i / 2] & 0xF0 != 0
            } else {
                bytes[i / 2] & 0x0F != 0
            },
    )
}

/// The two nibbles of a packed byte recover the two bits it was built from.
proof fn lemma_bit_byte_nibbles(first: bool, second: bool)
    ensures
        (spec_bit_byte(first, second) & 0xF0 != 0) == first,
        (spec_bit_byte(first, second) & 0x0F != 0) == second,
{
    assert(0x11u8 & 0xF0u8 == 0x10u8) by (bit_vector);
    assert(0x11u8 & 0x0Fu8 == 0x01u8) by (bit_vector);
    assert(0x10u8 & 0xF0u8 == 0x10u8) by (bit_vector);
    assert(0x10u8 & 0x0Fu8 == 0x00u8) by (bit_vector);
    assert(0x01u8 & 0xF0u8 == 0x00u8) by (bit_vector);
    assert(0x01u8 & 0x0Fu8 == 0x01u8) by (bit_vector);
    assert(0x00u8 & 0xF0u8 == 0x00u8) by (bit_vector);
    assert(0x00u8 & 0x0Fu8 == 0x00u8) by (bit_vector);
}

/// Unpacking a packed bit sequence gives the original bits back, followed
/// by a single padding `false` exactly when the count was odd.
pub proof fn lemma_bits_roundtrip(bits: Seq<bool>)
    ensures
        spec_unpacked(spec_packed(bits)).len() == 2 * ((bits.len() + 1) / 2),
        spec_unpacked(spec_packed(bits)).take(bits.len() as int) == bits,
        bits.len() % 2 == 1 ==> spec_unpacked(spec_packed(bits)) == bits.push(false),
{
    let packed = spec_packed(bits);
    let full = spec_unpacked(packed);
    assert forall|i: int| 0 <= i < full.len() implies full[i] == (if i < bits.len() {
        bits[i]
    } else {
        false
    }) by {
        let b: int = i / 2;
        assert(0 <= b < packed.len());
        let first = bits[2 * b];
        let second = if 2 * b + 1 < bits.len() {
            bits[2 * b + 1]
        } else {
            false
        };
        assert(packed[b] == spec_bit_byte(first, second));
        lemma_bit_byte_nibbles(first, second);
        if i % 2 == 0 {
            assert(2 * b == i);
        } else {
            assert(2 * b + 1 == i);
        }
    }
    assert(full.take(bits.len() as int) =~= bits);
    if bits.len() % 2 == 1 {
        assert(full =~= bits.push(false));
    }
}

/// Packs bit values two per byte: the first of each pair into the 0x10
/// bit, the second into the 0x01 bit; an odd count leaves the 0x01 bit of
/// the final byte zero.
pub fn pack_bits(bits: &Vec<bool>) -> (out: Vec<u8>)
    ensures
        out@ == spec_packed(bits@),
{
    let mut out: Vec<u8> = Vec::new();
    let pairs: usize = bits.len() / 2;
    let mut i: usize = 0;
    while i < pairs
        invariant
            bits@.len() <= usize::MAX,
            pairs == bits@.len() / 2,
            i <= pairs,
            out@.len() == i,
            out@ =~= spec_packed(bits@).take(i as int),
        decreases pairs - i,
    {
        let mut u: u8 = 0x00;
        if bits[2 * i] {
            u = 0x10;
        }
        if bits[2 * i + 1] {
            u = u + 0x01;
        }
        assert(u == spec_bit_byte(bits@[2 * i as int], bits@[2 * i as int + 1]));
        out.push(u);
        i += 1;
        proof {
            assert(out@ =~= spec_packed(bits@).take(i as int));
        }
    }
    if bits.len() % 2 == 1 {
        let mut u: u8 = 0x00;
        if bits[bits.len() - 1] {
            u = 0x10;
        }
        assert(u == spec_bit_byte(bits@[bits@.len() - 1], false));
        out.push(u);
        proof {
            assert(out@ =~= spec_packed(bits@));
        }
    } else {
        proof {
            assert(out@ =~= spec_packed(bits@));
        }
    }
    out
}

/// Unpacks nibble-encoded bytes into bit values, two per byte: high nibble
/// nonzero first, low nibble nonzero second.
pub fn unpack_bits(bytes: &Vec<u8>) -> (out: Vec<bool>)
    ensures
        out@ == spec_unpacked(bytes@),
{
    let mut out: Vec<bool> = Vec::new();
    let mut i: usize = 0;
    while i < bytes.len()
        invariant
            i <= bytes@.len(),
            out@.len() == 2 * i,
            out@ =~= spec_unpacked(bytes@).take(2 * i as int),
        decreases bytes@.len() - i,
    {
        let u: u8 = bytes[i];
        out.push((u & 0xF0) != 0);
        out.push((u & 0x0F) != 0);
        i += 1;
        proof {
            assert(out@ =~= spec_unpacked(bytes@).take(2 * i as int));
        }
    }
    proof {
        assert(out@ =~= spec_unpacked(bytes@));
    }
    out
}

/// The 15-byte fixed prefix of every request frame: sub-header 0x50,0x00,
/// destination, body length, two reserved zero bytes, command, subcommand.
pub open spec fn spec_req_header(dest: Destination, body_len: u16, cmd: u16, sub: u16) -> Seq<u8> {
    seq![0x50u8, 0x00u8] + dest.spec_bytes()
        + seq![
        lo16(body_len),
        hi16(body_len),
        0u8,
        0u8,
        lo16(cmd),
        hi16(cmd),
        lo16(sub),
        hi16(sub),
    ]
}

/// The 6-byte device range descriptor: head address (low 3 bytes of a
/// 32-bit value), device code byte, point count (little-endian).
pub open spec fn spec_device_range(head: u32, code: u8, count: u16) -> Seq<u8> {
    seq![b0_32(head), b1_32(head), b2_32(head), code, lo16(count), hi16(count)]
}

/// Appends the fixed request prefix to `out`.
pub(crate) fn push_req_header(out: &mut Vec<u8>, dest: &Destination, body_len: u16, cmd: u16, sub: u16)
    ensures
        final(out)@ == old(out)@ + spec_req_header(*dest, body_len, cmd, sub),
{
    out.push(0x50);
    out.push(0x00);
    out.push(dest.network);
    out.push(dest.station);
    out.push((dest.module % 256) as u8);
    out.push((dest.module / 256) as u8);
    out.push(dest.multidrop_station);
    out.push((body_len % 256) as u8);
    out.push((body_len / 256) as u8);
    out.push(0x00);
    out.push(0x00);
    out.push((cmd % 256) as u8);
    out.push((cmd / 256) as u8);
    out.push((sub % 256) as u8);
    out.push((sub / 256) as u8);
    proof {
        assert(out@ =~= old(out)@ + spec_req_header(*dest, body_len, cmd, sub));
    }
}

/// Appends a 6-byte device range descriptor to `out`.
pub(crate) fn push_device_range(out: &mut Vec<u8>, head: u32, code: u8, count: u16)
    ensures
        final(out)@ == old(out)@ + spec_device_range(head, code, count),
{
    out.push((head % 256) as u8);
    out.push(((head / 256) % 256) as u8);
    out.push(((head / 0x10000) % 256) as u8);
    out.push(code);
    out.push((count % 256) as u8);
    out.push((count / 256) as u8);
    proof {
        assert(out@ =~= old(out)@ + spec_device_range(head, code, count));
    }
}

/// Appends the little-endian byte form of each word value to `out`.
pub(crate) fn push_words(out: &mut Vec<u8>, values: &Vec<u16>)
    ensures
        final(out)@ == old(out)@ + spec_word_bytes(values@),
{
    let mut i: usize = 0;
    while i < values.len()
        invariant
            i <= values@.len(),
            out@ =~= old(out)@ + spec_word_bytes(values@.take(i as int)),
        decreases values@.len() - i,
    {
        let v: u16 = values[i];
        out.push((v % 256) as u8);
        out.push((v / 256) as u8);
        i += 1;
        proof {
            assert(out@ =~= old(out)@ + spec_word_bytes(values@.take(i as int)));
        }
    }
    proof {
        assert(values@.take(values@.len() as int) =~= values@);
    }
}

/// The request frame that reads `count` consecutive word registers
/// starting at `head`: command 0x0401, subcommand 0x0000, body length 12.
pub open spec fn spec_read_words_req(
    dest: Destination,
    head: u32,
    dev: DeviceWord,
    count: u16,
) -> Seq<u8> {
    spec_req_header(dest, 0x000C, 0x0401, 0x0000) + spec_device_range(
        head,
        dev.spec_code(),
        count,
    )
}

/// The request frame that reads `count` consecutive bit relays starting at
/// `head`: command 0x0401, subcommand 0x0001, body length 12.
pub open spec fn spec_read_bits_req(
    dest: Destination,
    head: u32,
    dev: DeviceBit,
    count: u16,
) -> Seq<u8> {
    spec_req_header(dest, 0x000C, 0x0401, 0x0001) + spec_device_range(
        head,
        dev.spec_code(),
        count,
    )
}

/// The request frame that writes `values` to consecutive word registers
/// starting at `head`: command 0x1401, subcommand 0x0000. The declared
/// point count and the body length are both derived from the actual value
/// count, so they can never disagree with the payload.
pub open spec fn spec_write_words_req(
    dest: Destination,
    head: u32,
    dev: DeviceWord,
    values: Seq<u16>,
) -> Seq<u8> {
    spec_req_header(dest, (12 + 2 * values.len()) as u16, 0x1401, 0x0000) + spec_device_range(
        head,
        dev.spec_code(),
        values.len() as u16,
    ) + spec_word_bytes(values)
}

/// The request frame that writes `values` to consecutive bit relays
/// starting at `head`: command 0x1401, subcommand 0x0001, values packed
/// two per byte. Point count and body length are derived from the actual
/// value count.
pub open spec fn spec_write_bits_req(
    dest: Destination,
    head: u32,
    dev: DeviceBit,
    values: Seq<bool>,
) -> Seq<u8> {
    spec_req_header(dest, (12 + (values.len() + 1) / 2) as u16, 0x1401, 0x0001)
        + spec_device_range(head, dev.spec_code(), values.len() as u16) + spec_packed(values)
}

/// Encodes a batch read of word registers.
pub fn encode_read_words(dest: &Destination, head: u32, dev: DeviceWord, count: u16) -> (out: Vec<
    u8,
>)
    ensures
        out@ == spec_read_words_req(*dest, head, dev, count),
        le16(out@[7], out@[8]) == out@.len() - 9,
{
    let mut out: Vec<u8> = Vec::new();
    push_req_header(&mut out, dest, 0x000C, 0x0401, 0x0000);
    push_device_range(&mut out, head, dev.code(), count);
    proof {
        assert(out@ =~= spec_read_words_req(*dest, head, dev, count));
        crate::frame::lemma_le16_split(0x000C);
    }
    out
}

/// Encodes a batch read of bit relays.
pub fn encode_read_bits(dest: &Destination, head: u32, dev: DeviceBit, count: u16) -> (out: Vec<
    u8,
>)
    ensures
        out@ == spec_read_bits_req(*dest, head, dev, count),
        le16(out@[7], out@[8]) == out@.len() - 9,
{
    let mut out: Vec<u8> = Vec::new();
    push_req_header(&mut out, dest, 0x000C, 0x0401, 0x0001);
    push_device_range(&mut out, head, dev.code(), count);
    proof {
        assert(out@ =~= spec_read_bits_req(*dest, head, dev, count));
        crate::frame::lemma_le16_split(0x000C);
    }
    out
}

/// Encodes a batch write of word registers. The count field of the frame
/// is always `values.len()`, taken from the payload itself.
pub fn encode_write_words(
    dest: &Destination,
    head: u32,
    dev: DeviceWord,
    values: &Vec<u16>,
) -> (out: Vec<u8>)
    requires
        12 + 2 * values@.len() <= 0xFFFF,
    ensures
        out@ == spec_write_words_req(*dest, head, dev, values@),
        le16(out@[7], out@[8]) == out@.len() - 9,
{
    let mut out: Vec<u8> = Vec::new();
    let body_len: u16 = (12 + 2 * values.len()) as u16;
    push_req_header(&mut out, dest, body_len, 0x1401, 0x0000);
    push_device_range(&mut out, head, dev.code(), values.len() as u16);
    push_words(&mut out, values);
    proof {
        assert(out@ =~= spec_write_words_req(*dest, head, dev, values@));
        crate::frame::lemma_le16_split(body_len);
    }
    out
}

/// Encodes a batch write of bit relays, nibble-packing the values two per
/// byte. The count field of the frame is always `values.len()`, taken from
/// the payload itself.
pub fn encode_write_bits(
    dest: &Destination,
    head: u32,
    dev: DeviceBit,
    values: &Vec<bool>,
) -> (out: Vec<u8>)
    requires
        values@.len() <= 0xFFFF,
    ensures
        out@ == spec_write_bits_req(*dest, head, dev, values@),
        le16(out@[7], out@[8]) == out@.len() - 9,
{
    let mut out: Vec<u8> = Vec::new();
    let body_len: u16 = (12 + (values.len() + 1) / 2) as u16;
    push_req_header(&mut out, dest, body_len, 0x1401, 0x0001);
    push_device_range(&mut out, head, dev.code(), values.len() as u16);
    let mut packed: Vec<u8> = pack_bits(values);
    out.append(&mut packed);
    proof {
        assert(out@ =~= spec_write_bits_req(*dest, head, dev, values@));
        crate::frame::lemma_le16_split(body_len);
    }
    out
}

/// Decodes a read-words response. On a complete frame with end-code 0 the
/// payload holds the `(L - 2) / 2` word values of the frame; with a
/// nonzero end-code the payload bytes are discarded.
pub fn decode_read_words(data: &Vec<u8>) -> (r: Decoded<Vec<u16>>)
    ensures
        status_incomplete(data@) ==> r is Incomplete,
        status_malformed(data@) ==> r is Malformed,
        status_complete(data@) ==> (r matches Decoded::Done { total, end_code, payload }
            && total == spec_frame_len(data@) && end_code == spec_end_code(data@) && payload@ == (
        if end_code == 0 {
            spec_words_of(data@.subrange(11, spec_frame_len(data@)))
        } else {
            Seq::<u16>::empty()
        })),
{
    let (total, end_code) = match parse_frame_status(data) {
        FrameStatus::Incomplete => {
            return Decoded::Incomplete;
        },
        FrameStatus::Malformed => {
            return Decoded::Malformed;
        },
        FrameStatus::Complete { total, end_code } => (total, end_code),
    };
    let mut words: Vec<u16> = Vec::new();
    if end_code == 0 {
        let ghost sub: Seq<u8> = data@.subrange(11, spec_frame_len(data@));
        let data_len: usize = data.len();
        let n_words: usize = (total - 11) / 2;
        let mut i: usize = 0;
        while i < n_words
            invariant
                status_complete(data@),
                total == spec_frame_len(data@),
                sub == data@.subrange(11, spec_frame_len(data@)),
                n_words == sub.len() / 2,
                data@.len() == data_len,
                total <= data_len,
                i <= n_words,
                words@.len() == i,
                forall|j: int| 0 <= j < i ==> words@[j] == spec_words_of(sub)[j],
            decreases n_words - i,
        {
            let v: u16 = u16_from_le(data[11 + 2 * i], data[12 + 2 * i]);
            proof {
                assert(sub[2 * i as int] == data@[11 + 2 * i as int]);
                assert(sub[2 * i as int + 1] == data@[12 + 2 * i as int]);
            }
            words.push(v);
            i += 1;
        }
        proof {
            assert(words@ =~= spec_words_of(sub));
        }
    }
    Decoded::Done { total, end_code, payload: words }
}

/// Decodes a read-bits response. On a complete frame with end-code 0 the
/// payload holds the `2 * (L - 2)` booleans unpacked from the frame's
/// nibble-encoded bytes; with a nonzero end-code the payload bytes are
/// discarded. When the requested count was odd, the caller discards the
/// final padding boolean.
pub fn decode_read_bits(data: &Vec<u8>) -> (r: Decoded<Vec<bool>>)
    ensures
        status_incomplete(data@) ==> r is Incomplete,
        status_malformed(data@) ==> r is Malformed,
        status_complete(data@) ==> (r matches Decoded::Done { total, end_code, payload }
            && total == spec_frame_len(data@) && end_code == spec_end_code(data@) && payload@ == (
        if end_code == 0 {
            spec_unpacked(data@.subrange(11, spec_frame_len(data@)))
        } else {
            Seq::<bool>::empty()
        })),
{
    let (total, end_code) = match parse_frame_status(data) {
        FrameStatus::Incomplete => {
            return Decoded::Incomplete;
        },
        FrameStatus::Malformed => {
            return Decoded::Malformed;
        },
        FrameStatus::Complete { total, end_code } => (total, end_code),
    };
    let mut bits: Vec<bool> = Vec::new();
    if end_code == 0 {
        let ghost sub: Seq<u8> = data@.subrange(11, spec_frame_len(data@));
        let data_len: usize = data.len();
        let n_bytes: usize = total - 11;
        let mut i: usize = 0;
        while i < n_bytes
            invariant
                status_complete(data@),
                total == spec_frame_len(data@),
                sub == data@.subrange(11, spec_frame_len(data@)),
                n_bytes == sub.len(),
                data@.len() == data_len,
                total <= data_len,
                i <= n_bytes,
                bits@.len() == 2 * i,
                forall|j: int| 0 <= j < 2 * i ==> bits@[j] == spec_unpacked(sub)[j],
            decreases n_bytes - i,
        {
            let u: u8 = data[11 + i];
            proof {
                assert(sub[i as int] == data@[11 + i as int]);
            }
            bits.push((u & 0xF0) != 0);
            bits.push((u & 0x0F) != 0);
            i += 1;
        }
        proof {
            assert(bits@ =~= spec_unpacked(sub));
        }
    }
    Decoded::Done { total, end_code, payload: bits }
}

/// The bit list handed to the caller of a bit read that asked for
/// `requested` values: the wire always carries an even count, so when the
/// requested count is odd the final unpacked boolean is padding and is
/// discarded.
pub open spec fn spec_bits_result(full: Seq<bool>, requested: u16) -> Seq<bool> {
    if requested % 2 == 1 && full.len() > 0 {
        full.drop_last()
    } else {
        full
    }
}

/// Round trip for word reads: a response frame built with end-code 0 and
/// the byte form of any word list decodes back to exactly that word list.
pub proof fn lemma_read_words_response_roundtrip(dest: Destination, ws: Seq<u16>)
    requires
        2 * ws.len() + 2 <= 0xFFFF,
    ensures
        ({
            let d = crate::frame::spec_response_frame(dest, 0, spec_word_bytes(ws));
            &&& status_complete(d)
            &&& spec_end_code(d) == 0
            &&& spec_words_of(d.subrange(11, spec_frame_len(d))) == ws
        }),
{
    crate::frame::lemma_response_frame_complete(dest, 0, spec_word_bytes(ws));
    lemma_words_roundtrip(ws);
}

/// Round trip for bit reads: a response frame built with end-code 0 and
/// the packed form of any bit list decodes back to exactly that bit list,
/// once the caller's odd-count rule has discarded the padding boolean.
pub proof fn lemma_read_bits_response_roundtrip(dest: Destination, bs: Seq<bool>)
    requires
        bs.len() <= 0xFFFF,
    ensures
        ({
            let d = crate::frame::spec_response_frame(dest, 0, spec_packed(bs));
            &&& status_complete(d)
            &&& spec_end_code(d) == 0
            &&& spec_bits_result(
                spec_unpacked(d.subrange(11, spec_frame_len(d))),
                bs.len() as u16,
            ) == bs
        }),
{
    crate::frame::lemma_response_frame_complete(dest, 0, spec_packed(bs));
    lemma_bits_roundtrip(bs);
    let d = crate::frame::spec_response_frame(dest, 0, spec_packed(bs));
    let full = spec_unpacked(d.subrange(11, spec_frame_len(d)));
    assert(full == spec_unpacked(spec_packed(bs)));
    if bs.len() % 2 == 0 {
        assert(full.len() == bs.len());
        assert(full.take(bs.len() as int) =~= full);
    } else {
        assert(full == bs.push(false));
        assert(bs.push(false).drop_last() =~= bs);
    }
}

/// Decodes the acknowledge response shared by every write operation; it
/// carries no payload beyond the end-code.
pub fn decode_write_ack(data: &Vec<u8>) -> (r: Decoded<()>)
    ensures
        status_incomplete(data@) ==> r is Incomplete,
        status_malformed(data@) ==> r is Malformed,
        status_complete(data@) ==> (r matches Decoded::Done { total, end_code, payload }
            && total == spec_frame_len(data@) && end_code == spec_end_code(data@)),
{
    match parse_frame_status(data) {
        FrameStatus::Incomplete => Decoded::Incomplete,
        FrameStatus::Malformed => Decoded::Malformed,
        FrameStatus::Complete { total, end_code } => Decoded::Done {
            total,
            end_code,
            payload: (),
        },
    }
}

} // verus!
