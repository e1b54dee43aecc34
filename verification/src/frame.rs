//! Frame-level building blocks shared by every operation: little-endian
//! byte order, the 5-byte destination descriptor, and the three-way
//! classification of an accumulated response buffer as incomplete,
//! malformed, or complete.
//!
//! A response frame is laid out as
//! `[0:2) sub-header 0xD0,0x00 | [2:7) destination | [7:9) data length L |
//! [9:11) end-code | [11:9+L) payload`, all multi-byte fields little-endian.
//! The data length `L` counts the end-code and the payload, so a structurally
//! valid frame has `L >= 2` and occupies exactly `9 + L` bytes.

use vstd::prelude::*;

verus! {

/// The 16-bit value that two little-endian bytes denote.
pub open spec fn le16(lo: u8, hi: u8) -> u16 {
    (lo + 256 * hi) as u16
}

/// Low byte of a 16-bit value.
pub open spec fn lo16(v: u16) -> u8 {
    (v % 256) as u8
}

/// High byte of a 16-bit value.
pub open spec fn hi16(v: u16) -> u8 {
    (v / 256) as u8
}

/// Reassembling the two little-endian bytes of a value gives the value back.
pub proof fn lemma_le16_split(v: u16)
    ensures
        le16(lo16(v), hi16(v)) == v,
{
}

/// Lowest byte of a 32-bit value.
pub open spec fn b0_32(v: u32) -> u8 {
    (v % 256) as u8
}

/// Second-lowest byte of a 32-bit value.
pub open spec fn b1_32(v: u32) -> u8 {
    ((v / 256) % 256) as u8
}

/// Third-lowest byte of a 32-bit value.
pub open spec fn b2_32(v: u32) -> u8 {
    ((v / 0x10000) % 256) as u8
}

/// Reads a 16-bit value from two little-endian bytes.
pub fn u16_from_le(lo: u8, hi: u8) -> (v: u16)
    ensures
        v == le16(lo, hi),
{
    lo as u16 + 256 * (hi as u16)
}

/// Splits a 16-bit value into its little-endian bytes (low, high).
pub fn u16_to_le(v: u16) -> (r: (u8, u8))
    ensures
        r.0 == lo16(v),
        r.1 == hi16(v),
{
    ((v % 256) as u8, (v / 256) as u8)
}

/// The fixed 5-byte destination descriptor that selects network, station
/// and module on the controller. The default value addresses the local
/// station and all modules.
#[derive(Clone, Copy, PartialEq, Eq, Structural, Debug)]
pub struct Destination {
    /// Network number.
    pub network: u8,
    /// Station number.
    pub station: u8,
    /// Module I/O number (16-bit, sent little-endian).
    pub module: u16,
    /// Multidrop station number.
    pub multidrop_station: u8,
}

impl Destination {
    /// The 5-byte wire form: network, station, module (little-endian),
    /// multidrop station, in that fixed order.
    pub open spec fn spec_bytes(self) -> Seq<u8> {
        seq![self.network, self.station, lo16(self.module), hi16(self.module), self.multidrop_station]
    }

    /// The default destination: local station, all modules.
    pub fn new() -> (d: Destination)
        ensures
            (d == Destination {
                network: 0x00,
                station: 0xFF,
                module: 0x03FF,
                multidrop_station: 0x00,
            }),
    {
        Destination { network: 0x00, station: 0xFF, module: 0x03FF, multidrop_station: 0x00 }
    }

    /// Encodes the destination into its 5-byte wire form.
    pub fn serialize(&self) -> (out: Vec<u8>)
        ensures
            out@ == self.spec_bytes(),
    {
        let mut out: Vec<u8> = Vec::new();
        out.push(self.network);
        out.push(self.station);
        out.push((self.module % 256) as u8);
        out.push((self.module / 256) as u8);
        out.push(self.multidrop_station);
        proof {
            assert(out@ =~= self.spec_bytes());
        }
        out
    }

    /// Decodes a destination from the first 5 bytes of `data`. This is a
    /// pure structural check: with fewer than 5 bytes present it fails
    /// without partially decoding, which callers reading a growing buffer
    /// treat as "frame still incomplete", not as a hard error.
    pub fn deserialize(data: &Vec<u8>) -> (r: Option<Destination>)
        ensures
            data@.len() < 5 ==> r is None,
            data@.len() >= 5 ==> (r matches Some(d) && d == spec_destination_at(data@, 0)),
    {
        if data.len() < 5 {
            return None;
        }
        Some(
            Destination {
                network: data[0],
                station: data[1],
                module: u16_from_le(data[2], data[3]),
                multidrop_station: data[4],
            },
        )
    }
}

/// The destination whose 5 wire bytes start at offset `at` of `d`.
pub open spec fn spec_destination_at(d: Seq<u8>, at: int) -> Destination {
    Destination {
        network: d[at],
        station: d[at + 1],
        module: le16(d[at + 2], d[at + 3]),
        multidrop_station: d[at + 4],
    }
}

/// True when the buffer starts with the response sub-header `0xD0 0x00`
/// and declares a data length that can hold the end-code.
pub open spec fn header_ok(d: Seq<u8>) -> bool {
    &&& d[0] == 0xD0
    &&& d[1] == 0x00
    &&& le16(d[7], d[8]) >= 2
}

/// Total length in bytes of the frame that the buffer declares: the 9-byte
/// prefix plus the data length read from offsets 7..9.
pub open spec fn spec_frame_len(d: Seq<u8>) -> int {
    9 + le16(d[7], d[8])
}

/// The end-code that the buffer declares, read from offsets 9..11.
pub open spec fn spec_end_code(d: Seq<u8>) -> u16 {
    le16(d[9], d[10])
}

/// The accumulated bytes do not yet hold a whole frame: either too few
/// bytes to read the fixed header, or fewer than the declared `9 + L`.
pub open spec fn status_incomplete(d: Seq<u8>) -> bool {
    ||| d.len() < 11
    ||| (header_ok(d) && d.len() < spec_frame_len(d))
}

/// The accumulated bytes can never grow into a valid frame: the sub-header
/// bytes mismatch, or the declared data length cannot hold the end-code.
pub open spec fn status_malformed(d: Seq<u8>) -> bool {
    d.len() >= 11 && !header_ok(d)
}

/// The accumulated bytes hold a whole frame of `spec_frame_len(d)` bytes;
/// anything beyond that length is left untouched.
pub open spec fn status_complete(d: Seq<u8>) -> bool {
    d.len() >= 11 && header_ok(d) && d.len() >= spec_frame_len(d)
}

/// Every buffer is in exactly one of the three states.
pub proof fn lemma_status_partition(d: Seq<u8>)
    ensures
        status_incomplete(d) || status_malformed(d) || status_complete(d),
        !(status_incomplete(d) && status_malformed(d)),
        !(status_incomplete(d) && status_complete(d)),
        !(status_malformed(d) && status_complete(d)),
{
}

/// Every strict prefix of a complete frame is incomplete, never malformed:
/// retrying the decode on a longer buffer is always safe.
pub proof fn lemma_prefix_incomplete(d: Seq<u8>, k: int)
    requires
        status_complete(d),
        0 <= k < spec_frame_len(d),
    ensures
        status_incomplete(d.take(k)),
{
}

/// Trailing bytes beyond the declared frame end are not consumed or
/// inspected: extending a complete buffer leaves the recognized length,
/// the end-code and the payload bytes unchanged.
pub proof fn lemma_trailing_bytes_ignored(d: Seq<u8>, ext: Seq<u8>)
    requires
        status_complete(d),
    ensures
        status_complete(d + ext),
        spec_frame_len(d + ext) == spec_frame_len(d),
        spec_end_code(d + ext) == spec_end_code(d),
        (d + ext).subrange(11, spec_frame_len(d)) == d.subrange(11, spec_frame_len(d)),
{
    assert((d + ext).subrange(11, spec_frame_len(d)) =~= d.subrange(11, spec_frame_len(d)));
}

/// Classification of an accumulated response buffer, with the recognized
/// frame length and the end-code once a whole frame is present.
pub enum FrameStatus {
    /// Too few bytes yet; keep accumulating.
    Incomplete,
    /// The bytes can never form a valid frame.
    Malformed,
    /// A whole frame is present.
    Complete {
        /// Length in bytes of the recognized frame, `9 + L`.
        total: usize,
        /// End-code read from offsets 9..11; 0 means success.
        end_code: u16,
    },
}

/// Classifies the accumulated buffer: incomplete while fewer than 11 bytes
/// or fewer than the declared `9 + L` bytes are present, malformed when the
/// sub-header mismatches or the declared data length cannot hold the
/// end-code, complete otherwise. With 11 bytes present the 5 destination
/// bytes are always structurally decodable, so they cannot fail this check;
/// the echoed destination is not generally trusted and is not returned.
pub fn parse_frame_status(data: &Vec<u8>) -> (r: FrameStatus)
    ensures
        status_incomplete(data@) ==> r is Incomplete,
        status_malformed(data@) ==> r is Malformed,
        status_complete(data@) ==> (r matches FrameStatus::Complete { total, end_code }
            && total == spec_frame_len(data@) && end_code == spec_end_code(data@)),
{
    if data.len() < 11 {
        return FrameStatus::Incomplete;
    }
    if data[0] != 0xD0 || data[1] != 0x00 {
        return FrameStatus::Malformed;
    }
    let l: u16 = u16_from_le(data[7], data[8]);
    if l < 2 {
        return FrameStatus::Malformed;
    }
    let total: usize = 9 + l as usize;
    if data.len() < total {
        return FrameStatus::Incomplete;
    }
    let end_code: u16 = u16_from_le(data[9], data[10]);
    FrameStatus::Complete { total, end_code }
}

/// A complete response frame built from a destination, an end-code and
/// payload bytes; the declared data length is the payload length plus the
/// two end-code bytes.
pub open spec fn spec_response_frame(dest: Destination, end_code: u16, payload: Seq<u8>) -> Seq<u8> {
    seq![0xD0u8, 0x00u8] + dest.spec_bytes()
        + seq![
        lo16((payload.len() + 2) as u16),
        hi16((payload.len() + 2) as u16),
        lo16(end_code),
        hi16(end_code),
    ] + payload
}

/// A frame built by `spec_response_frame` is complete at exactly
/// `11 + payload.len()` bytes and carries the end-code and payload it was
/// built from.
pub proof fn lemma_response_frame_complete(dest: Destination, end_code: u16, payload: Seq<u8>)
    requires
        payload.len() + 2 <= 0xFFFF,
    ensures
        status_complete(spec_response_frame(dest, end_code, payload)),
        spec_frame_len(spec_response_frame(dest, end_code, payload)) == 11 + payload.len(),
        spec_end_code(spec_response_frame(dest, end_code, payload)) == end_code,
        spec_response_frame(dest, end_code, payload).subrange(
            11,
            11 + payload.len() as int,
        ) == payload,
{
    let d = spec_response_frame(dest, end_code, payload);
    let l: u16 = (payload.len() + 2) as u16;
    lemma_le16_split(l);
    lemma_le16_split(end_code);
    assert(d.len() == 11 + payload.len());
    assert(d[7] == lo16(l) && d[8] == hi16(l));
    assert(d.subrange(11, 11 + payload.len() as int) =~= payload);
}

/// Builds a complete response frame: sub-header, destination, data length,
/// end-code, payload. A response is normally produced by the remote
/// controller; this builder gives tests and simulations the byte-exact
/// frame for a given payload.
pub fn encode_response(dest: &Destination, end_code: u16, payload: &Vec<u8>) -> (out: Vec<u8>)
    requires
        payload@.len() + 2 <= 0xFFFF,
    ensures
        out@ == spec_response_frame(*dest, end_code, payload@),
{
    let mut out: Vec<u8> = Vec::new();
    out.push(0xD0);
    out.push(0x00);
    out.push(dest.network);
    out.push(dest.station);
    out.push((dest.module % 256) as u8);
    out.push((dest.module / 256) as u8);
    out.push(dest.multidrop_station);
    let l: u16 = (payload.len() + 2) as u16;
    out.push((l % 256) as u8);
    out.push((l / 256) as u8);
    out.push((end_code % 256) as u8);
    out.push((end_code / 256) as u8);
    let mut i: usize = 0;
    while i < payload.len()
        invariant
            i <= payload@.len(),
            payload@.len() + 2 <= 0xFFFF,
            out@.len() == 11 + i,
            out@ =~= spec_response_frame(*dest, end_code, payload@).take(11 + i as int),
        decreases payload@.len() - i,
    {
        out.push(payload[i]);
        i += 1;
    }
    proof {
        assert(out@ =~= spec_response_frame(*dest, end_code, payload@));
    }
    out
}

} // verus!
