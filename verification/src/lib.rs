//! A reversible virtual machine on a paged, two-sided tape.
//!
//! Every state-mutating operation of the machine is journaled on an
//! append-only trail of inverse operations, so execution can be stepped
//! backwards one instruction at a time or rewound in bulk to a named
//! checkpoint, restoring the prior state exactly.

pub mod errors;
pub mod instruction;
pub mod laws;
pub mod names;
pub mod parser;
pub mod registers;
pub mod segment;
pub mod word;
pub mod tape;
pub mod vm;

pub use errors::ParseError;
pub use errors::ParseErrorKind;
pub use errors::VmError;
pub use instruction::Instruction;
pub use parser::Parser;
pub use registers::Flags;
pub use registers::Register;
pub use registers::RegisterFile;
pub use segment::Segment;
pub use segment::SegmentType;
pub use segment::SegmentedTape;
pub use tape::Tape;
pub use vm::VM;
