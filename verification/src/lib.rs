//! Client-side codec and reassembly engine for an SLMP-style binary
//! request/response protocol that reads and writes word registers and bit
//! relays on a remote industrial controller.
//!
//! The library builds request frames, incrementally recognizes response
//! frames out of arbitrarily-chunked transport reads, distinguishes
//! incomplete from malformed frames and from protocol-level device errors,
//! and packs/unpacks nibble-encoded bit data. Transport I/O itself is left
//! to the caller, which drives the step functions of [`engine`].

pub mod blocks;
pub mod codec;
pub mod device;
pub mod engine;
pub mod frame;

pub use blocks::{decode_read_blocks, encode_read_blocks, encode_write_blocks};
pub use codec::{
    decode_read_bits, decode_read_words, decode_write_ack, encode_read_bits, encode_read_words,
    encode_write_bits, encode_write_words, pack_bits, unpack_bits, Decoded,
};
pub use device::{DeviceBit, DeviceWord};
pub use engine::{
    ReadBitsExchange, ReadBlocksExchange, ReadWordsExchange, Step, TransportEvent, WriteExchange,
};
pub use frame::{encode_response, Destination};
