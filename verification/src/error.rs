//! The ways in which inspecting an image can fail.
use vstd::prelude::*;

verus! {

/// Why a header could not be decoded, a table could not be built, or a
/// listing stopped before the end of the image.
#[derive(Debug, Clone, Copy, PartialEq, Eq, Structural)]
pub enum DecodeError {
    /// The image ends before the bytes of the header, or of the
    /// entrypoint, that were asked for.
    TruncatedImage,
    /// The instruction at the cursor is longer than what is left of the
    /// image.
    TruncatedInstruction,
    /// No instruction is filed under this opcode.
    UnknownOpcode { opcode: u8 },
    /// A code byte of the header has no entry in the table that explains
    /// it.
    MissingLookupKey { code: u8 },
    /// Reference data that cannot be what it claims to be: a document
    /// that does not parse, an instruction shorter than its own opcode,
    /// an operand wider than the instruction that carries it.
    MalformedReferenceData,
    /// The title field of the header is not UTF-8 text.
    InvalidTitle,
}

} // verus!
