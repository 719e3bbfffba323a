//! The error taxonomy of the decoder.
//!
//! Every failure is terminal for the current decode and carries the byte
//! offset at which it was detected.

use vstd::prelude::*;

verus! {

/// What went wrong during a decode.
#[derive(Clone, Copy, Debug, PartialEq, Eq, Structural)]
pub enum DecodeErrorKind {
    /// Fewer bytes remain than a field or body requires.
    UnexpectedEof,
    /// A constant table tag byte outside the defined set.
    UnknownConstantTag,
    /// A verification type tag byte outside 0..=8.
    UnknownVerificationTag,
    /// An element value tag byte outside the defined ASCII set.
    UnknownElementValueTag,
    /// A stack map frame tag byte in the reserved range 128..=246.
    ReservedFrameTag,
    /// A constant table index that is 0, out of range, or the gap slot
    /// after a wide (Long or Double) entry.
    InvalidConstantPoolIndex,
    /// A declared attribute length that differs from the bytes the chosen
    /// body grammar consumed.
    AttributeLengthMismatch,
    /// The nesting depth guard for the recursive decoders fired.
    RecursionLimitExceeded,
    /// A declared element count, times the minimum element size, exceeds
    /// the bytes that remain in the input.
    CollectionLengthExceedsRemainingInput,
    /// The leading magic number is not the fixed constant of the format.
    InvalidMagic,
}

/// Mathematical model of a decode error: the kind and the byte offset.
pub struct SpecDecodeError {
    pub kind: DecodeErrorKind,
    pub offset: int,
}

/// A terminal decode failure: what was found, and where.
#[derive(Clone, Copy, Debug, PartialEq, Eq, Structural)]
pub struct DecodeError {
    pub kind: DecodeErrorKind,
    /// Byte offset into the input at which the error was detected.
    pub offset: usize,
}

impl View for DecodeError {
    type V = SpecDecodeError;

    open spec fn view(&self) -> SpecDecodeError {
        SpecDecodeError { kind: self.kind, offset: self.offset as int }
    }
}

/// Whether an error reports that the input ran out: either a read past
/// the end, or a declared count that cannot fit in what remains.
pub open spec fn spec_is_exhaustion_error(e: SpecDecodeError) -> bool {
    e.kind == DecodeErrorKind::UnexpectedEof
        || e.kind == DecodeErrorKind::CollectionLengthExceedsRemainingInput
}

} // verus!
