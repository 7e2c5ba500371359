//! The instruction set.
//!
//! Every instruction is executed under a history frame, so each one can be
//! undone at run time regardless of whether it has a structural inverse.
//! `inverse` gives the context-free inverse where one exists; it is
//! advisory, for static rewrites — the interpreter always reverses through
//! its history frames.

use vstd::prelude::*;

use crate::registers::Register;

verus! {

/// One instruction of the machine.  The reversible-arithmetic, segment,
/// splice and timeline variants are declared but carry no semantics in
/// this build; executing one fails with `UnimplementedInstruction`.
#[derive(Debug)]
pub enum Instruction {
    // Reversible arithmetic (reserved)
    RAdd { src1: Register, src2: Register, dst: Register },
    RSub { src1: Register, src2: Register, dst: Register },
    RXor { src: Register, dst: Register },
    // Reversible memory (reserved)
    RLoad { dst: Register, addr: Register, prev: Register },
    RStore { addr: Register, src: Register, prev: Register },
    MSwap { addr: Register, reg: Register },
    // Register operations (reserved)
    Swap { reg1: Register, reg2: Register },
    // Arithmetic
    IAdd { dst: Register, src1: Register, src2: Register },
    ISub { dst: Register, src1: Register, src2: Register },
    IMul { dst: Register, src1: Register, src2: Register },
    IXor { dst: Register, src1: Register, src2: Register },
    // Memory
    Load { reg: Register, addr: Register },
    Store { addr: Register, reg: Register },
    // Stack
    Push { reg: Register },
    Pop { reg: Register },
    // Tape primitives
    TapeRead { reg: Register, len: u8 },
    TapeWrite { reg: Register, len: u8 },
    TapeSeek { position: i64 },
    TapeSeekReg { reg: Register },
    TapeAdvance { delta: i64 },
    TapeMark { label: String },
    TapeSeekMark { label: String },
    // Segment operations (reserved)
    SegmentCreate { name: String, size: Register },
    SegmentSeek { name: String, offset: Register },
    SegmentRead { name: String, offset: Register, len: Register, dst: Register },
    SegmentWrite { name: String, offset: Register, len: Register, src: Register },
    // Advanced tape operations (reserved)
    Splice { dst: i64, src: i64, len: Register },
    Compact { start: i64, end: i64 },
    Fork { label: String },
    Merge { strategy: MergeStrategy },
    // Control flow
    Call { label: String },
    Return,
    Jump { label: String },
    Branch { condition: Register, label: String },
    BranchZero { reg: Register, label: String },
    BranchNotZero { reg: Register, label: String },
    // Time operations
    Checkpoint { label: String },
    Rewind { label: String },
    RewindN { steps: Register },
    // Comparison
    Compare { dst: Register, src1: Register, src2: Register },
    Equal { dst: Register, src1: Register, src2: Register },
    LessThan { dst: Register, src1: Register, src2: Register },
    // Constants
    LoadImm { reg: Register, value: i64 },
    // System
    Halt,
    Nop,
    Debug { message: String },
}

/// How a fork's timelines would be merged (reserved).
#[derive(Debug, Clone, Copy)]
pub enum MergeStrategy {
    Latest,
    Earliest,
    Combine,
    Manual,
}

/// The structural inverse of an instruction, where one exists without
/// context: arithmetic pairs swap, exclusive-or and swaps invert
/// themselves, push pairs with pop, and advances negate.
pub open spec fn inverse_spec(inst: Instruction) -> Option<Instruction> {
    match inst {
        Instruction::RAdd { src1, src2, dst } => Some(Instruction::RSub { src1, src2, dst }),
        Instruction::RSub { src1, src2, dst } => Some(Instruction::RAdd { src1, src2, dst }),
        Instruction::RXor { src, dst } => Some(Instruction::RXor { src, dst }),
        Instruction::IAdd { dst, src1, src2 } => Some(
            Instruction::ISub { dst, src1: dst, src2 },
        ),
        Instruction::ISub { dst, src1, src2 } => Some(
            Instruction::IAdd { dst, src1: dst, src2 },
        ),
        Instruction::IXor { dst, src1, src2 } => Some(Instruction::IXor { dst, src1, src2 }),
        Instruction::RLoad { dst, addr, prev } => Some(
            Instruction::RLoad { dst: prev, addr, prev: dst },
        ),
        Instruction::RStore { addr, src, prev } => Some(
            Instruction::RStore { addr, src: prev, prev: src },
        ),
        Instruction::MSwap { addr, reg } => Some(Instruction::MSwap { addr, reg }),
        Instruction::Swap { reg1, reg2 } => Some(Instruction::Swap { reg1, reg2 }),
        Instruction::Push { reg } => Some(Instruction::Pop { reg }),
        Instruction::Pop { reg } => Some(Instruction::Push { reg }),
        Instruction::TapeAdvance { delta } => Some(
            Instruction::TapeAdvance {
                delta: vstd::wrapping::i64_specs::wrapping_sub(0i64, delta),
            },
        ),
        _ => None,
    }
}

impl Instruction {
    /// The structural inverse, where one exists.
    pub fn inverse(&self) -> (r: Option<Instruction>)
        ensures
            r == inverse_spec(*self),
    {
        match self {
            Instruction::RAdd { src1, src2, dst } => Some(
                Instruction::RSub { src1: *src1, src2: *src2, dst: *dst },
            ),
            Instruction::RSub { src1, src2, dst } => Some(
                Instruction::RAdd { src1: *src1, src2: *src2, dst: *dst },
            ),
            Instruction::RXor { src, dst } => Some(Instruction::RXor { src: *src, dst: *dst }),
            Instruction::IAdd { dst, src1, src2 } => Some(
                Instruction::ISub { dst: *dst, src1: *dst, src2: *src2 },
            ),
            Instruction::ISub { dst, src1, src2 } => Some(
                Instruction::IAdd { dst: *dst, src1: *dst, src2: *src2 },
            ),
            Instruction::IXor { dst, src1, src2 } => Some(
                Instruction::IXor { dst: *dst, src1: *src1, src2: *src2 },
            ),
            Instruction::RLoad { dst, addr, prev } => Some(
                Instruction::RLoad { dst: *prev, addr: *addr, prev: *dst },
            ),
            Instruction::RStore { addr, src, prev } => Some(
                Instruction::RStore { addr: *addr, src: *prev, prev: *src },
            ),
            Instruction::MSwap { addr, reg } => Some(
                Instruction::MSwap { addr: *addr, reg: *reg },
            ),
            Instruction::Swap { reg1, reg2 } => Some(
                Instruction::Swap { reg1: *reg1, reg2: *reg2 },
            ),
            Instruction::Push { reg } => Some(Instruction::Pop { reg: *reg }),
            Instruction::Pop { reg } => Some(Instruction::Push { reg: *reg }),
            Instruction::TapeAdvance { delta } => Some(
                Instruction::TapeAdvance { delta: 0i64.wrapping_sub(*delta) },
            ),
            _ => None,
        }
    }

    /// Whether executing the instruction can change machine state.
    pub fn is_stateful(&self) -> (r: bool)
        ensures
            r == !(*self is Nop || *self is Debug || *self is Compare || *self is Equal
                || *self is LessThan),
    {
        match self {
            Instruction::Nop
            | Instruction::Debug { .. }
            | Instruction::Compare { .. }
            | Instruction::Equal { .. }
            | Instruction::LessThan { .. } => false,
            _ => true,
        }
    }

    /// Whether the instruction is a control transfer.
    pub fn is_branch(&self) -> (r: bool)
        ensures
            r == (*self is Jump || *self is Branch || *self is BranchZero
                || *self is BranchNotZero || *self is Call || *self is Return),
    {
        match self {
            Instruction::Jump { .. }
            | Instruction::Branch { .. }
            | Instruction::BranchZero { .. }
            | Instruction::BranchNotZero { .. }
            | Instruction::Call { .. }
            | Instruction::Return => true,
            _ => false,
        }
    }

    /// The instruction's size in bytes under the planned binary encoding.
    pub fn size(&self) -> (r: usize)
        ensures
            r == (match *self {
                Instruction::Nop => 1int,
                Instruction::Halt => 1int,
                Instruction::Return => 1int,
                Instruction::LoadImm { .. } => 10int,
                Instruction::RAdd { .. } => 4int,
                Instruction::RSub { .. } => 4int,
                Instruction::RXor { .. } => 3int,
                Instruction::RLoad { .. } => 4int,
                Instruction::RStore { .. } => 4int,
                Instruction::MSwap { .. } => 3int,
                Instruction::Swap { .. } => 3int,
                _ => 8int,
            }),
    {
        match self {
            Instruction::Nop => 1,
            Instruction::Halt => 1,
            Instruction::Return => 1,
            Instruction::LoadImm { .. } => 10,
            Instruction::RAdd { .. } | Instruction::RSub { .. } => 4,
            Instruction::RXor { .. } => 3,
            Instruction::RLoad { .. } | Instruction::RStore { .. } => 4,
            Instruction::MSwap { .. } | Instruction::Swap { .. } => 3,
            _ => 8,
        }
    }
}

impl Clone for Instruction {
    /// An exact copy of the instruction.
    fn clone(&self) -> (r: Self)
        ensures
            r == *self,
    {
        match self {
            Instruction::RAdd { src1, src2, dst } => Instruction::RAdd {
                src1: *src1,
                src2: *src2,
                dst: *dst,
            },
            Instruction::RSub { src1, src2, dst } => Instruction::RSub {
                src1: *src1,
                src2: *src2,
                dst: *dst,
            },
            Instruction::RXor { src, dst } => Instruction::RXor { src: *src, dst: *dst },
            Instruction::RLoad { dst, addr, prev } => Instruction::RLoad {
                dst: *dst,
                addr: *addr,
                prev: *prev,
            },
            Instruction::RStore { addr, src, prev } => Instruction::RStore {
                addr: *addr,
                src: *src,
                prev: *prev,
            },
            Instruction::MSwap { addr, reg } => Instruction::MSwap { addr: *addr, reg: *reg },
            Instruction::Swap { reg1, reg2 } => Instruction::Swap { reg1: *reg1, reg2: *reg2 },
            Instruction::IAdd { dst, src1, src2 } => Instruction::IAdd {
                dst: *dst,
                src1: *src1,
                src2: *src2,
            },
            Instruction::ISub { dst, src1, src2 } => Instruction::ISub {
                dst: *dst,
                src1: *src1,
                src2: *src2,
            },
            Instruction::IMul { dst, src1, src2 } => Instruction::IMul {
                dst: *dst,
                src1: *src1,
                src2: *src2,
            },
            Instruction::IXor { dst, src1, src2 } => Instruction::IXor {
                dst: *dst,
                src1: *src1,
                src2: *src2,
            },
            Instruction::Load { reg, addr } => Instruction::Load { reg: *reg, addr: *addr },
            Instruction::Store { addr, reg } => Instruction::Store { addr: *addr, reg: *reg },
            Instruction::Push { reg } => Instruction::Push { reg: *reg },
            Instruction::Pop { reg } => Instruction::Pop { reg: *reg },
            Instruction::TapeRead { reg, len } => Instruction::TapeRead { reg: *reg, len: *len },
            Instruction::TapeWrite { reg, len } => Instruction::TapeWrite {
                reg: *reg,
                len: *len,
            },
            Instruction::TapeSeek { position } => Instruction::TapeSeek { position: *position },
            Instruction::TapeSeekReg { reg } => Instruction::TapeSeekReg { reg: *reg },
            Instruction::TapeAdvance { delta } => Instruction::TapeAdvance { delta: *delta },
            Instruction::TapeMark { label } => Instruction::TapeMark { label: label.clone() },
            Instruction::TapeSeekMark { label } => Instruction::TapeSeekMark {
                label: label.clone(),
            },
            Instruction::SegmentCreate { name, size } => Instruction::SegmentCreate {
                name: name.clone(),
                size: *size,
            },
            Instruction::SegmentSeek { name, offset } => Instruction::SegmentSeek {
                name: name.clone(),
                offset: *offset,
            },
            Instruction::SegmentRead { name, offset, len, dst } => Instruction::SegmentRead {
                name: name.clone(),
                offset: *offset,
                len: *len,
                dst: *dst,
            },
            Instruction::SegmentWrite { name, offset, len, src } => Instruction::SegmentWrite {
                name: name.clone(),
                offset: *offset,
                len: *len,
                src: *src,
            },
            Instruction::Splice { dst, src, len } => Instruction::Splice {
                dst: *dst,
                src: *src,
                len: *len,
            },
            Instruction::Compact { start, end } => Instruction::Compact {
                start: *start,
                end: *end,
            },
            Instruction::Fork { label } => Instruction::Fork { label: label.clone() },
            Instruction::Merge { strategy } => Instruction::Merge { strategy: *strategy },
            Instruction::Call { label } => Instruction::Call { label: label.clone() },
            Instruction::Return => Instruction::Return,
            Instruction::Jump { label } => Instruction::Jump { label: label.clone() },
            Instruction::Branch { condition, label } => Instruction::Branch {
                condition: *condition,
                label: label.clone(),
            },
            Instruction::BranchZero { reg, label } => Instruction::BranchZero {
                reg: *reg,
                label: label.clone(),
            },
            Instruction::BranchNotZero { reg, label } => Instruction::BranchNotZero {
                reg: *reg,
                label: label.clone(),
            },
            Instruction::Checkpoint { label } => Instruction::Checkpoint {
                label: label.clone(),
            },
            Instruction::Rewind { label } => Instruction::Rewind { label: label.clone() },
            Instruction::RewindN { steps } => Instruction::RewindN { steps: *steps },
            Instruction::Compare { dst, src1, src2 } => Instruction::Compare {
                dst: *dst,
                src1: *src1,
                src2: *src2,
            },
            Instruction::Equal { dst, src1, src2 } => Instruction::Equal {
                dst: *dst,
                src1: *src1,
                src2: *src2,
            },
            Instruction::LessThan { dst, src1, src2 } => Instruction::LessThan {
                dst: *dst,
                src1: *src1,
                src2: *src2,
            },
            Instruction::LoadImm { reg, value } => Instruction::LoadImm {
                reg: *reg,
                value: *value,
            },
            Instruction::Halt => Instruction::Halt,
            Instruction::Nop => Instruction::Nop,
            Instruction::Debug { message } => Instruction::Debug { message: message.clone() },
        }
    }
}

} // verus!
