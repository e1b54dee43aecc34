//! Device-kind enumerations and their wire byte codes.
//!
//! The protocol identifies each addressable device kind by a fixed byte
//! code. The mapping lives in the enumeration itself: an unrecognized code
//! is unrepresentable, and the lookup is a total match with no fallback.

use vstd::prelude::*;

verus! {

/// Word-addressable register device kinds (16-bit registers).
#[derive(Clone, Copy, PartialEq, Eq, Structural, Debug)]
pub enum DeviceWord {
    /// Data register.
    D,
    /// File register, R form.
    R,
    /// File register, ZR form.
    ZR,
}

/// Bit-addressable relay device kinds (single-bit relays).
#[derive(Clone, Copy, PartialEq, Eq, Structural, Debug)]
pub enum DeviceBit {
    /// Input relay.
    X,
    /// Output relay.
    Y,
    /// Internal relay.
    M,
}

impl DeviceWord {
    /// The wire byte code of this word device kind.
    pub open spec fn spec_code(self) -> u8 {
        match self {
            DeviceWord::D => 0xA8,
            DeviceWord::R => 0xAF,
            DeviceWord::ZR => 0xB0,
        }
    }

    /// Looks the wire byte code up from the enumeration.
    #[verifier::when_used_as_spec(spec_code)]
    pub fn code(self) -> (c: u8)
        ensures
            c == self.spec_code(),
    {
        match self {
            DeviceWord::D => 0xA8,
            DeviceWord::R => 0xAF,
            DeviceWord::ZR => 0xB0,
        }
    }
}

impl DeviceBit {
    /// The wire byte code of this bit device kind.
    pub open spec fn spec_code(self) -> u8 {
        match self {
            DeviceBit::X => 0x9C,
            DeviceBit::Y => 0x9D,
            DeviceBit::M => 0x90,
        }
    }

    /// Looks the wire byte code up from the enumeration.
    #[verifier::when_used_as_spec(spec_code)]
    pub fn code(self) -> (c: u8)
        ensures
            c == self.spec_code(),
    {
        match self {
            DeviceBit::X => 0x9C,
            DeviceBit::Y => 0x9D,
            DeviceBit::M => 0x90,
        }
    }
}

} // verus!
