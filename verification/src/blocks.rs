//! Block operations: one request bundling several independent word-register
//! ranges, read or written as a single frame.
//!
//! A block request body starts with the word-block count and a zero
//! bit-block count (bit-device blocks are not implemented), followed by one
//! 6-byte device range descriptor per block, and for writes the word values
//! of each block right after its descriptor. A block-read response carries
//! only a flat word payload: block boundaries are recovered from the
//! request's own per-block counts, in request order, never re-derived from
//! the response. If that segmentation would run past the declared frame
//! end, the response is malformed, not short.

use vstd::prelude::*;

use crate::codec::{
    push_device_range, push_req_header, push_words, spec_device_range, spec_req_header,
    spec_word_bytes, spec_words_of, Decoded,
};
use crate::device::DeviceWord;
use crate::frame::{
    le16, parse_frame_status, spec_end_code, spec_frame_len, status_complete, status_incomplete,
    status_malformed, u16_from_le, Destination, FrameStatus,
};

verus! {

/// Total number of word values that a count list asks for.
pub open spec fn spec_count_sum(counts: Seq<u16>) -> int
    decreases counts.len(),
{
    if counts.len() == 0 {
        0
    } else {
        spec_count_sum(counts.drop_last()) + counts.last()
    }
}

/// A count sum is never negative.
pub proof fn lemma_count_sum_nonneg(counts: Seq<u16>)
    ensures
        spec_count_sum(counts) >= 0,
    decreases counts.len(),
{
    if counts.len() > 0 {
        lemma_count_sum_nonneg(counts.drop_last());
    }
}

/// Extending a prefix by one count adds exactly that count to its sum.
pub proof fn lemma_count_sum_step(counts: Seq<u16>, b: int)
    requires
        0 <= b < counts.len(),
    ensures
        spec_count_sum(counts.take(b + 1)) == spec_count_sum(counts.take(b)) + counts[b],
{
    assert(counts.take(b + 1).drop_last() =~= counts.take(b));
    assert(counts.take(b + 1).last() == counts[b]);
}

/// A prefix never sums to more than the whole list.
pub proof fn lemma_count_sum_prefix_le(counts: Seq<u16>, b: int)
    requires
        0 <= b <= counts.len(),
    ensures
        spec_count_sum(counts.take(b)) <= spec_count_sum(counts),
    decreases counts.len() - b,
{
    if b == counts.len() {
        assert(counts.take(b) =~= counts);
    } else {
        lemma_count_sum_step(counts, b);
        lemma_count_sum_prefix_le(counts, b + 1);
    }
}

/// The flat word list of a block-read response, re-segmented by the
/// request's per-block counts in request order: block `j` is the words at
/// positions `sum(counts[..j]) .. sum(counts[..j]) + counts[j]`.
pub open spec fn spec_segmented(counts: Seq<u16>, words: Seq<u16>) -> Seq<Seq<u16>> {
    Seq::new(
        counts.len(),
        |j: int|
            words.subrange(
                spec_count_sum(counts.take(j)),
                spec_count_sum(counts.take(j)) + counts[j],
            ),
    )
}

/// The body of a read-blocks request after the two block-count bytes: one
/// device range descriptor per block, in request order.
pub open spec fn spec_read_blocks_body(blocks: Seq<(u32, DeviceWord, u16)>) -> Seq<u8>
    decreases blocks.len(),
{
    if blocks.len() == 0 {
        Seq::empty()
    } else {
        spec_read_blocks_body(blocks.drop_last()) + spec_device_range(
            blocks.last().0,
            blocks.last().1.spec_code(),
            blocks.last().2,
        )
    }
}

/// The request frame that reads several word-register blocks in one
/// operation: command 0x0406, subcommand 0x0000, body length
/// `8 + 6 * blocks.len()`.
pub open spec fn spec_read_blocks_req(
    dest: Destination,
    blocks: Seq<(u32, DeviceWord, u16)>,
) -> Seq<u8> {
    spec_req_header(dest, (8 + 6 * blocks.len()) as u16, 0x0406, 0x0000)
        + seq![blocks.len() as u8, 0u8] + spec_read_blocks_body(blocks)
}

/// Each descriptor adds 6 bytes to the read-blocks body.
pub proof fn lemma_read_blocks_body_len(blocks: Seq<(u32, DeviceWord, u16)>)
    ensures
        spec_read_blocks_body(blocks).len() == 6 * blocks.len(),
    decreases blocks.len(),
{
    if blocks.len() > 0 {
        lemma_read_blocks_body_len(blocks.drop_last());
    }
}

/// Encodes a batch read of several word-register blocks. The wire holds
/// the block count in one byte.
pub fn encode_read_blocks(dest: &Destination, blocks: &Vec<(u32, DeviceWord, u16)>) -> (out: Vec<
    u8,
>)
    requires
        blocks@.len() <= 255,
    ensures
        out@ == spec_read_blocks_req(*dest, blocks@),
        le16(out@[7], out@[8]) == out@.len() - 9,
{
    let mut out: Vec<u8> = Vec::new();
    let body_len: u16 = (8 + 6 * blocks.len()) as u16;
    push_req_header(&mut out, dest, body_len, 0x0406, 0x0000);
    out.push(blocks.len() as u8);
    out.push(0x00);
    let ghost prefix: Seq<u8> = out@;
    let mut i: usize = 0;
    while i < blocks.len()
        invariant
            blocks@.len() <= 255,
            i <= blocks@.len(),
            out@ =~= prefix + spec_read_blocks_body(blocks@.take(i as int)),
        decreases blocks@.len() - i,
    {
        let (head, dev, count) = blocks[i];
        push_device_range(&mut out, head, dev.code(), count);
        i += 1;
        proof {
            assert(blocks@.take(i as int).drop_last() =~= blocks@.take(i as int - 1));
            assert(out@ =~= prefix + spec_read_blocks_body(blocks@.take(i as int)));
        }
    }
    proof {
        assert(blocks@.take(blocks@.len() as int) =~= blocks@);
        assert(out@ =~= spec_read_blocks_req(*dest, blocks@));
        lemma_read_blocks_body_len(blocks@);
        crate::frame::lemma_le16_split((8 + 6 * blocks@.len()) as u16);
    }
    out
}

/// The body of a write-blocks request after the two block-count bytes: one
/// device range descriptor per block, each followed by that block's word
/// values; the per-block count field is derived from the block's actual
/// value count.
pub open spec fn spec_write_blocks_body(blocks: Seq<(u32, DeviceWord, Vec<u16>)>) -> Seq<u8>
    decreases blocks.len(),
{
    if blocks.len() == 0 {
        Seq::empty()
    } else {
        spec_write_blocks_body(blocks.drop_last()) + spec_device_range(
            blocks.last().0,
            blocks.last().1.spec_code(),
            blocks.last().2@.len() as u16,
        ) + spec_word_bytes(blocks.last().2@)
    }
}

/// The request frame that writes several word-register blocks in one
/// operation: command 0x1406, subcommand 0x0000; the body length is derived
/// from the assembled body.
pub open spec fn spec_write_blocks_req(
    dest: Destination,
    blocks: Seq<(u32, DeviceWord, Vec<u16>)>,
) -> Seq<u8> {
    spec_req_header(dest, (8 + spec_write_blocks_body(blocks).len()) as u16, 0x1406, 0x0000)
        + seq![blocks.len() as u8, 0u8] + spec_write_blocks_body(blocks)
}

/// Encodes a batch write of several word-register blocks. The wire holds
/// the block count in one byte and the body length in two.
#[verifier::loop_isolation(false)]
pub fn encode_write_blocks(
    dest: &Destination,
    blocks: &Vec<(u32, DeviceWord, Vec<u16>)>,
) -> (out: Vec<u8>)
    requires
        blocks@.len() <= 255,
        forall|j: int| 0 <= j < blocks@.len() ==> #[trigger] blocks@[j].2@.len() <= 0xFFFF,
        8 + spec_write_blocks_body(blocks@).len() <= 0xFFFF,
    ensures
        out@ == spec_write_blocks_req(*dest, blocks@),
        le16(out@[7], out@[8]) == out@.len() - 9,
{
    let mut out: Vec<u8> = Vec::new();
    push_req_header(&mut out, dest, 0x0000, 0x1406, 0x0000);
    out.push(blocks.len() as u8);
    out.push(0x00);
    let ghost prefix: Seq<u8> = out@;
    let mut i: usize = 0;
    while i < blocks.len()
        invariant
            i <= blocks@.len(),
            out@ =~= prefix + spec_write_blocks_body(blocks@.take(i as int)),
        decreases blocks@.len() - i,
    {
        let b = &blocks[i];
        push_device_range(&mut out, b.0, b.1.code(), b.2.len() as u16);
        push_words(&mut out, &b.2);
        i += 1;
        proof {
            assert(blocks@.take(i as int).drop_last() =~= blocks@.take(i as int - 1));
            assert(out@ =~= prefix + spec_write_blocks_body(blocks@.take(i as int)));
        }
    }
    proof {
        assert(blocks@.take(blocks@.len() as int) =~= blocks@);
    }
    let body_len: u16 = (out.len() - 9) as u16;
    out.set(7, (body_len % 256) as u8);
    out.set(8, (body_len / 256) as u8);
    proof {
        assert(out@ =~= spec_write_blocks_req(*dest, blocks@));
        crate::frame::lemma_le16_split(body_len);
    }
    out
}

/// Decodes a read-blocks response against the per-block counts of the
/// request it answers. On a complete frame with end-code 0 whose flat
/// payload holds at least `sum(counts)` words, the payload is one word list
/// per requested block, in request order; if the counts would read past the
/// declared frame end the frame is malformed. With a nonzero end-code the
/// payload bytes are discarded.
#[verifier::loop_isolation(false)]
pub fn decode_read_blocks(data: &Vec<u8>, counts: &Vec<u16>) -> (r: Decoded<Vec<Vec<u16>>>)
    ensures
        status_incomplete(data@) ==> r is Incomplete,
        status_malformed(data@) ==> r is Malformed,
        (status_complete(data@) && spec_end_code(data@) != 0) ==> (r matches Decoded::Done {
            total,
            end_code,
            payload,
        } && total == spec_frame_len(data@) && end_code == spec_end_code(data@) && payload@.len()
            == 0),
        (status_complete(data@) && spec_end_code(data@) == 0 && 2 * spec_count_sum(counts@)
            > spec_frame_len(data@) - 11) ==> r is Malformed,
        (status_complete(data@) && spec_end_code(data@) == 0 && 2 * spec_count_sum(counts@)
            <= spec_frame_len(data@) - 11) ==> (r matches Decoded::Done {
            total,
            end_code,
            payload,
        } && total == spec_frame_len(data@) && end_code == 0 && payload@.len() == counts@.len()
            && (forall|j: int|
            0 <= j < counts@.len() ==> #[trigger] payload@[j]@ == spec_segmented(
                counts@,
                spec_words_of(data@.subrange(11, spec_frame_len(data@))),
            )[j])),
{
    let (total, end_code) = match parse_frame_status(data) {
        FrameStatus::Incomplete => {
            return Decoded::Incomplete;
        },
        FrameStatus::Malformed => {
            return Decoded::Malformed;
        },
        FrameStatus::Complete { total, end_code } => (total, end_code),
    };
    let mut out_blocks: Vec<Vec<u16>> = Vec::new();
    if end_code != 0 {
        return Decoded::Done { total, end_code, payload: out_blocks };
    }
    let limit: usize = total - 11;
    let mut sum: usize = 0;
    let mut j: usize = 0;
    while j < counts.len()
        invariant
            j <= counts@.len(),
            sum == spec_count_sum(counts@.take(j as int)),
            2 * sum <= limit,
        decreases counts@.len() - j,
    {
        let c: u16 = counts[j];
        let grown: usize = sum + c as usize;
        proof {
            lemma_count_sum_step(counts@, j as int);
            lemma_count_sum_prefix_le(counts@, j as int + 1);
        }
        if 2 * grown > limit {
            return Decoded::Malformed;
        }
        sum = grown;
        j += 1;
    }
    proof {
        assert(counts@.take(counts@.len() as int) =~= counts@);
    }
    let ghost flat: Seq<u16> = spec_words_of(data@.subrange(11, spec_frame_len(data@)));
    let mut pos: usize = 0;
    let mut b: usize = 0;
    while b < counts.len()
        invariant
            b <= counts@.len(),
            pos == spec_count_sum(counts@.take(b as int)),
            2 * spec_count_sum(counts@) <= limit,
            out_blocks@.len() == b,
            forall|k: int|
                0 <= k < b ==> #[trigger] out_blocks@[k]@ == spec_segmented(counts@, flat)[k],
        decreases counts@.len() - b,
    {
        let c: u16 = counts[b];
        proof {
            lemma_count_sum_step(counts@, b as int);
            lemma_count_sum_prefix_le(counts@, b as int + 1);
            lemma_count_sum_nonneg(counts@.take(b as int));
        }
        let ghost start: int = spec_count_sum(counts@.take(b as int));
        let mut block: Vec<u16> = Vec::new();
        let mut t: usize = 0;
        while t < c as usize
            invariant
                t <= c,
                pos == start + t,
                block@.len() == t,
                forall|u: int| 0 <= u < t ==> #[trigger] block@[u] == flat[start + u],
            decreases c - t,
        {
            let v: u16 = u16_from_le(data[11 + 2 * pos], data[12 + 2 * pos]);
            proof {
                let sub = data@.subrange(11, spec_frame_len(data@));
                assert(sub[2 * pos as int] == data@[11 + 2 * pos as int]);
                assert(sub[2 * pos as int + 1] == data@[12 + 2 * pos as int]);
                assert(flat[pos as int] == le16(
                    data@[11 + 2 * pos as int],
                    data@[12 + 2 * pos as int],
                ));
            }
            block.push(v);
            pos += 1;
            t += 1;
        }
        proof {
            assert(block@ =~= flat.subrange(start, start + counts@[b as int]));
        }
        out_blocks.push(block);
        b += 1;
    }
    proof {
        assert(counts@.take(counts@.len() as int) =~= counts@);
    }
    Decoded::Done { total, end_code, payload: out_blocks }
}

/// The word lists of several blocks flattened into one list, in block
/// order, as a block-read response carries them.
pub open spec fn spec_concat_words(blocks: Seq<Seq<u16>>) -> Seq<u16>
    decreases blocks.len(),
{
    if blocks.len() == 0 {
        Seq::empty()
    } else {
        spec_concat_words(blocks.drop_last()) + blocks.last()
    }
}

/// The per-block counts of a list of word lists.
pub open spec fn spec_block_counts(blocks: Seq<Seq<u16>>) -> Seq<u16> {
    Seq::new(blocks.len(), |j: int| blocks[j].len() as u16)
}

/// The flattened prefix of `j` blocks is as long as the sum of their counts.
proof fn lemma_concat_take_len(blocks: Seq<Seq<u16>>, j: int)
    requires
        0 <= j <= blocks.len(),
        forall|k: int| 0 <= k < blocks.len() ==> #[trigger] blocks[k].len() <= 0xFFFF,
    ensures
        spec_concat_words(blocks.take(j)) .len() == spec_count_sum(spec_block_counts(blocks).take(j)),
    decreases j,
{
    if j > 0 {
        lemma_concat_take_len(blocks, j - 1);
        assert(blocks.take(j).drop_last() =~= blocks.take(j - 1));
        assert(spec_block_counts(blocks).take(j).drop_last() =~= spec_block_counts(blocks).take(
            j - 1,
        ));
    }
}

/// Flattened prefixes only grow as more blocks are taken.
proof fn lemma_concat_take_len_mono(blocks: Seq<Seq<u16>>, a: int, b: int)
    requires
        0 <= a <= b <= blocks.len(),
    ensures
        spec_concat_words(blocks.take(a)).len() <= spec_concat_words(blocks.take(b)).len(),
    decreases b - a,
{
    if a < b {
        lemma_concat_take_len_mono(blocks, a + 1, b);
        assert(blocks.take(a + 1).drop_last() =~= blocks.take(a));
    }
}

/// Inside the flattened list, block `j` occupies exactly the range that
/// starts where the flattened prefix of `j` blocks ends.
proof fn lemma_concat_block(blocks: Seq<Seq<u16>>, j: int)
    requires
        0 <= j < blocks.len(),
    ensures
        spec_concat_words(blocks).subrange(
            spec_concat_words(blocks.take(j)).len() as int,
            spec_concat_words(blocks.take(j)).len() + blocks[j].len() as int,
        ) == blocks[j],
    decreases blocks.len(),
{
    let start = spec_concat_words(blocks.take(j)).len() as int;
    if j == blocks.len() - 1 {
        assert(blocks.take(j) =~= blocks.drop_last());
        assert(spec_concat_words(blocks).subrange(start, start + blocks[j].len()) =~= blocks[j]);
    } else {
        lemma_concat_block(blocks.drop_last(), j);
        assert(blocks.drop_last().take(j) =~= blocks.take(j));
        lemma_concat_take_len_mono(blocks.drop_last(), j + 1, blocks.len() - 1);
        assert(blocks.drop_last().take(j + 1).drop_last() =~= blocks.take(j));
        assert(blocks.drop_last().take(blocks.len() - 1) =~= blocks.drop_last());
        assert(start + blocks[j].len() <= spec_concat_words(blocks.drop_last()).len());
        assert(spec_concat_words(blocks).subrange(start, start + blocks[j].len())
            =~= spec_concat_words(blocks.drop_last()).subrange(start, start + blocks[j].len()));
    }
}

/// Segmentation fidelity: re-segmenting the flattened word lists of any
/// blocks by their own counts gives the blocks back, in order.
pub proof fn lemma_blocks_segmentation(blocks: Seq<Seq<u16>>)
    requires
        forall|k: int| 0 <= k < blocks.len() ==> #[trigger] blocks[k].len() <= 0xFFFF,
    ensures
        spec_segmented(spec_block_counts(blocks), spec_concat_words(blocks)) == blocks,
{
    let counts = spec_block_counts(blocks);
    let flat = spec_concat_words(blocks);
    assert forall|j: int| 0 <= j < blocks.len() implies spec_segmented(counts, flat)[j]
        == blocks[j] by {
        lemma_concat_take_len(blocks, j);
        lemma_concat_block(blocks, j);
    }
    assert(spec_segmented(counts, flat) =~= blocks);
}

/// Round trip for block reads: a response frame built with end-code 0 and
/// the byte form of the flattened word lists segments back, by the
/// request's own counts, into exactly the original blocks.
pub proof fn lemma_read_blocks_response_roundtrip(dest: Destination, blocks: Seq<Seq<u16>>)
    requires
        forall|k: int| 0 <= k < blocks.len() ==> #[trigger] blocks[k].len() <= 0xFFFF,
        2 * spec_concat_words(blocks).len() + 2 <= 0xFFFF,
    ensures
        ({
            let counts = spec_block_counts(blocks);
            let d = crate::frame::spec_response_frame(
                dest,
                0,
                spec_word_bytes(spec_concat_words(blocks)),
            );
            &&& status_complete(d)
            &&& spec_end_code(d) == 0
            &&& 2 * spec_count_sum(counts) <= spec_frame_len(d) - 11
            &&& spec_segmented(counts, spec_words_of(d.subrange(11, spec_frame_len(d))))
                == blocks
        }),
{
    let counts = spec_block_counts(blocks);
    let flat = spec_concat_words(blocks);
    crate::frame::lemma_response_frame_complete(dest, 0, spec_word_bytes(flat));
    crate::codec::lemma_words_roundtrip(flat);
    lemma_concat_take_len(blocks, blocks.len() as int);
    assert(blocks.take(blocks.len() as int) =~= blocks);
    assert(counts.take(counts.len() as int) =~= counts);
    lemma_blocks_segmentation(blocks);
}

} // verus!
