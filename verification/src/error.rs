//! Failures reported by the decoder.

use vstd::prelude::*;

verus! {

/// The fields of a chunk header, in stream order.
#[derive(Clone, Copy, Debug, PartialEq, Eq, Structural)]
pub enum HeaderField {
    Signature,
    Version,
    Format,
    LuacData,
    CIntSize,
    SizeTSize,
    InstructionSize,
    LuaIntegerSize,
    LuaNumberSize,
    LuacNum,
    LuacInt,
}

impl HeaderField {
    /// Where the field starts, counted from the start of the header.
    pub open spec fn offset(self) -> int {
        match self {
            HeaderField::Signature => 0,
            HeaderField::Version => 4,
            HeaderField::Format => 5,
            HeaderField::LuacData => 6,
            HeaderField::CIntSize => 12,
            HeaderField::SizeTSize => 13,
            HeaderField::InstructionSize => 14,
            HeaderField::LuaIntegerSize => 15,
            HeaderField::LuaNumberSize => 16,
            HeaderField::LuacNum => 17,
            HeaderField::LuacInt => 25,
        }
    }

    /// How many bytes the field takes.
    pub open spec fn width(self) -> nat {
        match self {
            HeaderField::Signature => 4,
            HeaderField::LuacData => 6,
            HeaderField::LuacNum => 8,
            HeaderField::LuacInt => 8,
            _ => 1,
        }
    }

    /// The value that the field must hold, its bytes taken least significant
    /// first: the signature `\x1bLua`, version 5.3, the official format, the
    /// canary `\x19\x93\r\n\x1a\n`, the widths 4, 8, 4, 8 and 8, the bit
    /// pattern of 370.5, and 0x5678.
    pub open spec fn expected(self) -> u64 {
        match self {
            HeaderField::Signature => 0x6175_4c1b,
            HeaderField::Version => 0x53,
            HeaderField::Format => 0,
            HeaderField::LuacData => 0x0a1a_0a0d_9319,
            HeaderField::CIntSize => 4,
            HeaderField::SizeTSize => 8,
            HeaderField::InstructionSize => 4,
            HeaderField::LuaIntegerSize => 8,
            HeaderField::LuaNumberSize => 8,
            HeaderField::LuacNum => 0x4077_2800_0000_0000,
            HeaderField::LuacInt => 0x5678,
        }
    }

    /// Whether the field is one of the five size descriptors.
    pub open spec fn is_size(self) -> bool {
        match self {
            HeaderField::CIntSize
            | HeaderField::SizeTSize
            | HeaderField::InstructionSize
            | HeaderField::LuaIntegerSize
            | HeaderField::LuaNumberSize => true,
            _ => false,
        }
    }
}

/// Why a decode stopped.
#[derive(Clone, Copy, Debug, PartialEq, Eq, Structural)]
pub enum ErrorKind {
    /// The buffer ended before a required field was complete.
    TruncatedInput,
    /// A text field held bytes that are not UTF-8.
    InvalidText,
    /// A header field other than a size descriptor differs from the value
    /// every chunk must carry. Multi-byte fields are given as little-endian
    /// integers.
    MalformedHeader { field: HeaderField, expected: u64, actual: u64 },
    /// A size descriptor names a width this decoder was not built for.
    UnsupportedPlatform { field: HeaderField, expected: u64, actual: u64 },
    /// A constant carries a tag outside the defined set.
    UnknownConstantTag { tag: u8 },
}

/// A failure together with the offset of the field at which it was found.
#[derive(Clone, Copy, Debug, PartialEq, Eq, Structural)]
pub struct DecodeError {
    pub kind: ErrorKind,
    pub offset: usize,
}

} // verus!
