//! Error kinds shared by the tape, the segments and the interpreter.

use vstd::prelude::*;

verus! {

/// Everything that can go wrong while driving the machine.
///
/// `Halt` is not a fault: it is the sentinel through which the `Halt`
/// instruction signals normal termination to the runner.
#[derive(Clone, Copy, Debug, PartialEq, Eq, Structural)]
pub enum VmError {
    /// A register identifier at or above 16 was used.
    InvalidRegister,
    /// A control transfer named a label that neither the symbol table nor
    /// the tape marks know.
    UnknownLabel,
    /// A tape operation named a mark that was never recorded.
    UnknownMark,
    /// A rewind named a checkpoint that was never recorded.
    UnknownCheckpoint,
    /// A segment read or write fell outside the segment's size.
    SegmentBounds,
    /// A segment was created under a name that already exists.
    DuplicateSegment,
    /// A segment operation named a segment that does not exist.
    UnknownSegment,
    /// A little-endian word consumer received a byte count other than 8.
    BadRead,
    /// The instruction is declared but carries no semantics in this build.
    UnimplementedInstruction,
    /// A reversal was requested with an empty execution history.
    HistoryExhausted,
    /// Normal termination requested by the `Halt` instruction.
    Halt,
}

/// Why an assembly line failed to parse.
#[derive(Clone, Copy, Debug, PartialEq, Eq, Structural)]
pub enum ParseErrorKind {
    /// The first token names no known mnemonic.
    UnknownMnemonic,
    /// The mnemonic is known but the operand count is wrong.
    WrongOperandCount,
    /// An operand should be a register `R0`..`R15` and is not.
    BadRegister,
    /// An operand should be a signed 64-bit immediate and is not.
    BadImmediate,
    /// An operand should be an unsigned 8-bit byte count and is not.
    BadByte,
}

/// A parse failure: the one-based source line and what went wrong.
#[derive(Clone, Copy, Debug, PartialEq, Eq, Structural)]
pub struct ParseError {
    pub line: usize,
    pub kind: ParseErrorKind,
}

impl ParseErrorKind {
    /// A short fixed description, for hosts that want to print the error.
    pub fn message(&self) -> (r: &'static str)
        ensures
            (match self {
                ParseErrorKind::UnknownMnemonic => r@ == "unknown instruction"@,
                ParseErrorKind::WrongOperandCount => r@ == "wrong number of operands"@,
                ParseErrorKind::BadRegister => r@ == "invalid register"@,
                ParseErrorKind::BadImmediate => r@ == "invalid immediate"@,
                ParseErrorKind::BadByte => r@ == "invalid byte value"@,
            }),
    {
        match self {
            ParseErrorKind::UnknownMnemonic => "unknown instruction",
            ParseErrorKind::WrongOperandCount => "wrong number of operands",
            ParseErrorKind::BadRegister => "invalid register",
            ParseErrorKind::BadImmediate => "invalid immediate",
            ParseErrorKind::BadByte => "invalid byte value",
        }
    }
}

impl VmError {
    /// A short fixed description, for hosts that want to print the error.
    pub fn message(&self) -> (r: &'static str)
        ensures
            (match self {
                VmError::InvalidRegister => r@ == "invalid register"@,
                VmError::UnknownLabel => r@ == "unknown label"@,
                VmError::UnknownMark => r@ == "unknown mark"@,
                VmError::UnknownCheckpoint => r@ == "unknown checkpoint"@,
                VmError::SegmentBounds => r@ == "segment bounds violation"@,
                VmError::DuplicateSegment => r@ == "segment already exists"@,
                VmError::UnknownSegment => r@ == "unknown segment"@,
                VmError::BadRead => r@ == "bad little-endian read"@,
                VmError::UnimplementedInstruction => r@ == "unimplemented instruction"@,
                VmError::HistoryExhausted => r@ == "no operations to reverse"@,
                VmError::Halt => r@ == "halt"@,
            }),
    {
        match self {
            VmError::InvalidRegister => "invalid register",
            VmError::UnknownLabel => "unknown label",
            VmError::UnknownMark => "unknown mark",
            VmError::UnknownCheckpoint => "unknown checkpoint",
            VmError::SegmentBounds => "segment bounds violation",
            VmError::DuplicateSegment => "segment already exists",
            VmError::UnknownSegment => "unknown segment",
            VmError::BadRead => "bad little-endian read",
            VmError::UnimplementedInstruction => "unimplemented instruction",
            VmError::HistoryExhausted => "no operations to reverse",
            VmError::Halt => "halt",
        }
    }
}

} // verus!
