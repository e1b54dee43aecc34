//! Reassembly engine: the decision logic that turns transport events into
//! protocol outcomes, one in-flight operation per connection at a time.
//!
//! The caller owns the transport. For one operation it sends the encoded
//! request, then repeatedly reads, handing each observation to the
//! operation's exchange as a [`TransportEvent`]; the exchange accumulates
//! the bytes, re-attempts the decode on the whole buffer, and answers with
//! the next [`Step`]: keep reading, pause briefly and retry (a zero-byte
//! read is transient, not end-of-stream), or finish. A finished operation
//! resolves to the decoded payload, to the remote end-code verbatim, or to
//! the reserved value 0 for every transport or framing failure — 0 is not a
//! protocol end-code, so callers can tell "device reported an error" from
//! "communication failed".

use vstd::prelude::*;

use crate::blocks::{decode_read_blocks, spec_count_sum, spec_segmented};
use crate::codec::{
    decode_read_bits, decode_read_words, decode_write_ack, spec_bits_result, spec_unpacked,
    spec_words_of, Decoded,
};
use crate::frame::{
    spec_end_code, spec_frame_len, status_complete, status_incomplete, status_malformed,
};

verus! {

/// One observation of the transport while a response is awaited.
pub enum TransportEvent {
    /// A read delivered these bytes (at least one).
    Chunk(Vec<u8>),
    /// A read returned zero bytes without error: treated as transient.
    Idle,
    /// The write failed, a read failed, or a read timed out.
    Broken,
}

/// What the caller must do next with the transport.
pub enum Step<T> {
    /// The frame is still incomplete: issue another read.
    ReadMore,
    /// Transient empty read: pause briefly, then read again.
    PauseRetry,
    /// The operation resolved; no further reads belong to it.
    Done(Result<T, u16>),
}

/// In-flight batch read of word registers: accumulates response bytes and
/// resolves to the word values read.
pub struct ReadWordsExchange {
    /// Bytes accumulated from the transport so far.
    pub buf: Vec<u8>,
}

impl ReadWordsExchange {
    /// Starts an exchange with an empty buffer.
    pub fn new() -> (s: Self)
        ensures
            s.buf@ == Seq::<u8>::empty(),
    {
        ReadWordsExchange { buf: Vec::new() }
    }

    /// Advances the operation by one transport event. A chunk is appended
    /// to the buffer and the whole buffer is re-decoded: an incomplete
    /// frame asks for more bytes, a malformed frame fails with the
    /// reserved value 0, a complete frame resolves to its word payload or
    /// to its nonzero end-code.
    pub fn step(&mut self, ev: TransportEvent) -> (a: Step<Vec<u16>>)
        ensures
            ev is Idle ==> a is PauseRetry && final(self).buf@ == old(self).buf@,
            ev is Broken ==> a == Step::Done(Err::<Vec<u16>, u16>(0u16)),
            (ev matches TransportEvent::Chunk(c) ==> {
                let d = old(self).buf@ + c@;
                &&& status_incomplete(d) ==> a is ReadMore && final(self).buf@ == d
                &&& status_malformed(d) ==> a == Step::Done(Err::<Vec<u16>, u16>(0u16))
                &&& (status_complete(d) && spec_end_code(d) != 0) ==> a == Step::Done(
                    Err::<Vec<u16>, u16>(spec_end_code(d)),
                )
                &&& (status_complete(d) && spec_end_code(d) == 0) ==> (a matches Step::Done(res)
                    && res matches Ok(ws) && ws@ == spec_words_of(
                    d.subrange(11, spec_frame_len(d)),
                ))
            }),
    {
        match ev {
            TransportEvent::Idle => Step::PauseRetry,
            TransportEvent::Broken => Step::Done(Err(0)),
            TransportEvent::Chunk(mut c) => {
                self.buf.append(&mut c);
                match decode_read_words(&self.buf) {
                    Decoded::Incomplete => Step::ReadMore,
                    Decoded::Malformed => Step::Done(Err(0)),
                    Decoded::Done { total: _, end_code, payload } => {
                        if end_code != 0 {
                            Step::Done(Err(end_code))
                        } else {
                            Step::Done(Ok(payload))
                        }
                    },
                }
            },
        }
    }
}

/// In-flight batch read of bit relays: accumulates response bytes and
/// resolves to the bit values read, trimmed to the requested count's
/// parity.
pub struct ReadBitsExchange {
    /// Bytes accumulated from the transport so far.
    pub buf: Vec<u8>,
    /// Number of bit values the request asked for; when odd, the final
    /// unpacked boolean is wire padding and is discarded.
    pub requested: u16,
}

impl ReadBitsExchange {
    /// Starts an exchange for a read of `requested` bit values.
    pub fn new(requested: u16) -> (s: Self)
        ensures
            s.buf@ == Seq::<u8>::empty(),
            s.requested == requested,
    {
        ReadBitsExchange { buf: Vec::new(), requested }
    }

    /// Advances the operation by one transport event, as
    /// [`ReadWordsExchange::step`] does; a complete successful frame
    /// resolves to its unpacked booleans, minus the final padding one when
    /// the requested count was odd.
    pub fn step(&mut self, ev: TransportEvent) -> (a: Step<Vec<bool>>)
        ensures
            ev is Idle ==> a is PauseRetry && final(self).buf@ == old(self).buf@
                && final(self).requested == old(self).requested,
            ev is Broken ==> a == Step::Done(Err::<Vec<bool>, u16>(0u16)),
            (ev matches TransportEvent::Chunk(c) ==> {
                let d = old(self).buf@ + c@;
                &&& status_incomplete(d) ==> a is ReadMore && final(self).buf@ == d
                    && final(self).requested == old(self).requested
                &&& status_malformed(d) ==> a == Step::Done(Err::<Vec<bool>, u16>(0u16))
                &&& (status_complete(d) && spec_end_code(d) != 0) ==> a == Step::Done(
                    Err::<Vec<bool>, u16>(spec_end_code(d)),
                )
                &&& (status_complete(d) && spec_end_code(d) == 0) ==> (a matches Step::Done(res)
                    && res matches Ok(bs) && bs@ == spec_bits_result(
                    spec_unpacked(d.subrange(11, spec_frame_len(d))),
                    old(self).requested,
                ))
            }),
    {
        match ev {
            TransportEvent::Idle => Step::PauseRetry,
            TransportEvent::Broken => Step::Done(Err(0)),
            TransportEvent::Chunk(mut c) => {
                self.buf.append(&mut c);
                match decode_read_bits(&self.buf) {
                    Decoded::Incomplete => Step::ReadMore,
                    Decoded::Malformed => Step::Done(Err(0)),
                    Decoded::Done { total: _, end_code, payload } => {
                        if end_code != 0 {
                            Step::Done(Err(end_code))
                        } else {
                            let mut bits = payload;
                            if self.requested % 2 == 1 {
                                bits.pop();
                            }
                            Step::Done(Ok(bits))
                        }
                    },
                }
            },
        }
    }
}

/// In-flight batch read of several word-register blocks: accumulates
/// response bytes and resolves to one word list per requested block,
/// segmented by the request's own per-block counts.
pub struct ReadBlocksExchange {
    /// Bytes accumulated from the transport so far.
    pub buf: Vec<u8>,
    /// Per-block word counts of the request, in request order.
    pub counts: Vec<u16>,
}

impl ReadBlocksExchange {
    /// Starts an exchange for a block read with the given per-block counts.
    pub fn new(counts: Vec<u16>) -> (s: Self)
        ensures
            s.buf@ == Seq::<u8>::empty(),
            s.counts@ == counts@,
    {
        ReadBlocksExchange { buf: Vec::new(), counts }
    }

    /// Advances the operation by one transport event, as
    /// [`ReadWordsExchange::step`] does; a complete successful frame whose
    /// flat payload holds all requested words resolves to the per-block
    /// word lists, and one whose payload would end before the last
    /// requested word fails with the reserved value 0.
    pub fn step(&mut self, ev: TransportEvent) -> (a: Step<Vec<Vec<u16>>>)
        ensures
            ev is Idle ==> a is PauseRetry && final(self).buf@ == old(self).buf@
                && final(self).counts@ == old(self).counts@,
            ev is Broken ==> a == Step::Done(Err::<Vec<Vec<u16>>, u16>(0u16)),
            (ev matches TransportEvent::Chunk(c) ==> {
                let d = old(self).buf@ + c@;
                &&& status_incomplete(d) ==> a is ReadMore && final(self).buf@ == d
                    && final(self).counts@ == old(self).counts@
                &&& status_malformed(d) ==> a == Step::Done(Err::<Vec<Vec<u16>>, u16>(0u16))
                &&& (status_complete(d) && spec_end_code(d) != 0) ==> a == Step::Done(
                    Err::<Vec<Vec<u16>>, u16>(spec_end_code(d)),
                )
                &&& (status_complete(d) && spec_end_code(d) == 0 && 2 * spec_count_sum(
                    old(self).counts@,
                ) > spec_frame_len(d) - 11) ==> a == Step::Done(Err::<Vec<Vec<u16>>, u16>(0u16))
                &&& (status_complete(d) && spec_end_code(d) == 0 && 2 * spec_count_sum(
                    old(self).counts@,
                ) <= spec_frame_len(d) - 11) ==> (a matches Step::Done(res) && res matches Ok(bs)
                    && bs@.len() == old(self).counts@.len() && (forall|j: int|
                    0 <= j < old(self).counts@.len() ==> #[trigger] bs@[j]@ == spec_segmented(
                        old(self).counts@,
                        spec_words_of(d.subrange(11, spec_frame_len(d))),
                    )[j]))
            }),
    {
        match ev {
            TransportEvent::Idle => Step::PauseRetry,
            TransportEvent::Broken => Step::Done(Err(0)),
            TransportEvent::Chunk(mut c) => {
                self.buf.append(&mut c);
                match decode_read_blocks(&self.buf, &self.counts) {
                    Decoded::Incomplete => Step::ReadMore,
                    Decoded::Malformed => Step::Done(Err(0)),
                    Decoded::Done { total: _, end_code, payload } => {
                        if end_code != 0 {
                            Step::Done(Err(end_code))
                        } else {
                            Step::Done(Ok(payload))
                        }
                    },
                }
            },
        }
    }
}

/// In-flight write of any kind (words, bits or blocks): accumulates the
/// acknowledge response and resolves to success or to the end-code.
pub struct WriteExchange {
    /// Bytes accumulated from the transport so far.
    pub buf: Vec<u8>,
}

impl WriteExchange {
    /// Starts an exchange with an empty buffer.
    pub fn new() -> (s: Self)
        ensures
            s.buf@ == Seq::<u8>::empty(),
    {
        WriteExchange { buf: Vec::new() }
    }

    /// Advances the operation by one transport event, as
    /// [`ReadWordsExchange::step`] does; a complete frame resolves to
    /// success when its end-code is 0 and to that end-code otherwise.
    pub fn step(&mut self, ev: TransportEvent) -> (a: Step<()>)
        ensures
            ev is Idle ==> a is PauseRetry && final(self).buf@ == old(self).buf@,
            ev is Broken ==> a == Step::Done(Err::<(), u16>(0u16)),
            (ev matches TransportEvent::Chunk(c) ==> {
                let d = old(self).buf@ + c@;
                &&& status_incomplete(d) ==> a is ReadMore && final(self).buf@ == d
                &&& status_malformed(d) ==> a == Step::Done(Err::<(), u16>(0u16))
                &&& (status_complete(d) && spec_end_code(d) != 0) ==> a == Step::Done(
                    Err::<(), u16>(spec_end_code(d)),
                )
                &&& (status_complete(d) && spec_end_code(d) == 0) ==> a == Step::Done(
                    Ok::<(), u16>(()),
                )
            }),
    {
        match ev {
            TransportEvent::Idle => Step::PauseRetry,
            TransportEvent::Broken => Step::Done(Err(0)),
            TransportEvent::Chunk(mut c) => {
                self.buf.append(&mut c);
                match decode_write_ack(&self.buf) {
                    Decoded::Incomplete => Step::ReadMore,
                    Decoded::Malformed => Step::Done(Err(0)),
                    Decoded::Done { total: _, end_code, payload: _ } => {
                        if end_code != 0 {
                            Step::Done(Err(end_code))
                        } else {
                            Step::Done(Ok(()))
                        }
                    },
                }
            },
        }
    }
}

} // verus!
