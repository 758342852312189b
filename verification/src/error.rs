//! Why a buffer was not decoded, or a container not encoded.

use vstd::prelude::*;

verus! {

/// The ways in which decoding fails. A string slot that is not UTF-8 is no
/// failure: its text is replaced, and decoding goes on.
#[derive(Debug, Clone, Copy, PartialEq, Eq, Structural)]
pub enum DecodeError {
    /// The buffer does not start with the sixteen bytes of the magic tag.
    BadMagic,
    /// The buffer ends before a part that the header declares, or the offset
    /// table names a script start that lies behind the script data.
    TruncatedInput,
    /// The low seven bits of a leading byte name no entry of the opcode
    /// table. `offset` is where that byte stands.
    UnknownOpcode { offset: u32, code: u8 },
    /// The bytes end inside an instruction. `offset` is where the
    /// instruction starts.
    TruncatedInstruction { offset: u32 },
}

/// Why a container was not encoded.
#[derive(Debug, Clone, Copy, PartialEq, Eq, Structural)]
pub enum EncodeError {
    /// A count or a size of the container does not fit the 32-bit field
    /// that the header has for it.
    OutOfRange,
}

impl DecodeError {
    /// The same error with its offset counted from `base` bytes further
    /// back: an offset within a script becomes one within the script data
    /// when `base` is where the script starts.
    pub open spec fn shifted(self, base: u32) -> DecodeError {
        match self {
            DecodeError::UnknownOpcode { offset, code } => DecodeError::UnknownOpcode {
                offset: (base + offset) as u32,
                code,
            },
            DecodeError::TruncatedInstruction { offset } => DecodeError::TruncatedInstruction {
                offset: (base + offset) as u32,
            },
            other => other,
        }
    }

    /// Moves the offset of the error by `base`, see [`DecodeError::shifted`].
    /// An error without an offset is returned as it is.
    pub fn shift(self, base: u32) -> (r: DecodeError)
        requires
            match self {
                DecodeError::UnknownOpcode { offset, .. } => base + offset <= u32::MAX,
                DecodeError::TruncatedInstruction { offset } => base + offset <= u32::MAX,
                _ => true,
            },
        ensures
            r == self.shifted(base),
    {
        match self {
            DecodeError::UnknownOpcode { offset, code } => DecodeError::UnknownOpcode {
                offset: base + offset,
                code,
            },
            DecodeError::TruncatedInstruction { offset } => DecodeError::TruncatedInstruction {
                offset: base + offset,
            },
            other => other,
        }
    }
}

} // verus!
