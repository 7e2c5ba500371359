//! The interpreter and its reversibility engine.
//!
//! `execute` pushes a history frame capturing the register file, the three
//! pointers and the trail length *before* an instruction's effect runs, so
//! `reverse_last` can always restore exactly the pre-dispatch state: it
//! restores the snapshot and rewinds the tape journal by the trail delta.

use vstd::prelude::*;
use vstd::string::StringExecFns;
use vstd::wrapping::i64_specs;

use crate::errors::VmError;
use crate::instruction::Instruction;
use crate::names::assoc_index;
use crate::names::assoc_map;
use crate::names::assoc_set;
use crate::names::keys_unique;
use crate::names::lemma_assoc_at;
use crate::registers::flags_for;
use crate::registers::Register;
use crate::registers::RegisterFile;
use crate::segment::SegmentedTape;
use crate::segment::SegmentType;
use crate::tape::read_seq;
use crate::tape::wrap_pos;
use crate::tape::write_seq;
use crate::tape::Tape;
use crate::tape::TapeSnap;
use crate::tape::TrailOpV;
use crate::word::le_decode;
use crate::word::le_encode;
use crate::word::le_i64;
use crate::word::le_of;

verus! {

/// The machine: tape, registers, pointers, history, and the label space.
pub struct VM {
    /// The global tape, with its named segments.
    pub tape: SegmentedTape,
    /// The sixteen registers and the flags.
    pub registers: RegisterFile,
    /// Instruction pointer: an index into the loaded instruction list.
    pub ip: i64,
    /// Stack pointer: a tape position.
    pub sp: i64,
    /// Frame pointer: a tape position.
    pub fp: i64,
    /// Per-instruction frames, for reversal.
    pub history: ExecutionHistory,
    /// Parallel timelines (reserved for fork and merge).
    pub timelines: Vec<(String, Timeline)>,
    /// The name of the running timeline.
    pub current_timeline: String,
    /// Assembly labels and synthetic symbols, each an instruction index.
    pub symbols: Vec<(String, i64)>,
    /// The host diagnostic sink: one line per executed `Debug`.
    pub debug_log: Vec<String>,
}

/// The stack of per-instruction frames plus named checkpoint depths.
pub struct ExecutionHistory {
    pub stack: Vec<HistoryFrame>,
    pub checkpoints: Vec<(String, usize)>,
}

impl ExecutionHistory {
    /// An empty history.
    pub fn new() -> (r: ExecutionHistory)
        ensures
            r.stack@.len() == 0,
            r.checkpoints@.len() == 0,
    {
        ExecutionHistory { stack: Vec::new(), checkpoints: Vec::new() }
    }
}

/// Everything needed to restore the state from before one instruction.
pub struct HistoryFrame {
    pub instruction: Instruction,
    pub registers_before: RegisterFile,
    pub ip_before: i64,
    pub sp_before: i64,
    pub fp_before: i64,
    pub tape_trail_len: usize,
}

/// A parallel timeline (reserved for fork operations).
pub struct Timeline {
    pub tape: SegmentedTape,
    pub registers: RegisterFile,
    pub ip: i64,
    pub sp: i64,
    pub fp: i64,
}

/// The value register `r` holds.
pub open spec fn rd(p: VM, r: Register) -> i64 {
    p.registers.general@[r as int]
}

/// The symbol table as a map.
pub open spec fn sym_map(p: VM) -> Map<Seq<char>, i64> {
    assoc_map(p.symbols@)
}

/// The execution history's checkpoints as a map.
pub open spec fn vm_cps(p: VM) -> Map<Seq<char>, usize> {
    assoc_map(p.history.checkpoints@)
}

/// The frame `execute` pushes before an instruction's effect.
pub open spec fn frame_of(p: VM, inst: Instruction) -> HistoryFrame {
    HistoryFrame {
        instruction: inst,
        registers_before: p.registers,
        ip_before: p.ip,
        sp_before: p.sp,
        fp_before: p.fp,
        tape_trail_len: p.tape.tape.trail_ops().len() as usize,
    }
}

/// What a control transfer's label resolves to: the symbol table first,
/// then the tape's marks.
pub open spec fn resolve_spec(p: VM, l: Seq<char>) -> Option<i64> {
    if sym_map(p).dom().contains(l) {
        Some(sym_map(p)[l])
    } else if p.tape.tape@.marks.dom().contains(l) {
        Some(p.tape.tape@.marks[l])
    } else {
        None
    }
}

/// The parts of the machine no instruction changes.
pub open spec fn keeps_env(p: VM, q: VM) -> bool {
    &&& q.tape.seg_list() == p.tape.seg_list()
    &&& q.symbols == p.symbols
    &&& q.timelines == p.timelines
    &&& q.current_timeline == p.current_timeline
}

/// The tape is untouched, and its journal with it.
pub open spec fn same_tape(p: VM, q: VM) -> bool {
    q.tape.tape == p.tape.tape
}

/// The journal grew by exactly `ops`, the rest of its past preserved, and
/// the checkpoints and mark tracking are as before.
pub open spec fn tape_appended(p: VM, q: VM, ops: Seq<TrailOpV>) -> bool {
    &&& q.tape.tape.trail_ops() == p.tape.tape.trail_ops() + ops
    &&& q.tape.tape.past().len() == p.tape.tape.past().len() + ops.len()
    &&& q.tape.tape.past().take(p.tape.tape.past().len() as int) == p.tape.tape.past()
    &&& q.tape.tape.cp_map() == p.tape.tape.cp_map()
    &&& q.tape.tape.marks_ok() == p.tape.tape.marks_ok()
}

/// The outcome of an instruction that pushed its frame and then stopped
/// before any effect: only the history gained the frame.
pub open spec fn frame_only(p: VM, q: VM, inst: Instruction) -> bool {
    &&& q.history.stack@ == p.history.stack@.push(frame_of(p, inst))
    &&& q.history.checkpoints == p.history.checkpoints
    &&& q.registers == p.registers
    &&& q.ip == p.ip
    &&& q.sp == p.sp
    &&& q.fp == p.fp
    &&& same_tape(p, q)
    &&& keeps_env(p, q)
    &&& q.debug_log == p.debug_log
}

/// What one successful `reverse_last` does: the popped frame's snapshot
/// comes back, and the journal is rewound to the frame's recorded length.
/// Head and bytes are restored exactly; the marks too, unless a surviving
/// entry had re-marked an existing label.
pub open spec fn reverse_rel(p: VM, q: VM) -> bool {
    let fr = p.history.stack@.last();
    let cur = p.tape.tape.trail_ops().len() as int;
    let t = if fr.tape_trail_len <= cur {
        fr.tape_trail_len as int
    } else {
        cur
    };
    &&& p.history.stack@.len() > 0
    &&& q.registers == fr.registers_before
    &&& q.ip == fr.ip_before
    &&& q.sp == fr.sp_before
    &&& q.fp == fr.fp_before
    &&& q.history.stack@ == p.history.stack@.drop_last()
    &&& q.history.checkpoints == p.history.checkpoints
    &&& q.tape.tape.trail_ops() == p.tape.tape.trail_ops().take(t)
    &&& q.tape.tape@.head == p.tape.tape.past()[t].head
    &&& q.tape.tape@.bytes == p.tape.tape.past()[t].bytes
    &&& (p.tape.tape.marks_ok() ==> q.tape.tape@ == p.tape.tape.past()[t])
    &&& q.tape.tape.past() == p.tape.tape.past().take(t + 1).update(t, q.tape.tape@)
    &&& q.tape.tape.cp_map() == p.tape.tape.cp_map()
    &&& q.tape.tape.marks_ok() == p.tape.tape.marks_ok()
    &&& keeps_env(p, q)
    &&& q.debug_log == p.debug_log
}

/// The outcome of an instruction that only writes a register: the target
/// gets `w` (with the flags following it when `set_flags`), the pointer
/// advances, the tape is untouched.  When `ok_cond` fails the instruction
/// aborts with `InvalidRegister` under its frame.
pub open spec fn reg_write_step(
    p: VM,
    q: VM,
    inst: Instruction,
    r: Result<(), VmError>,
    ok_cond: bool,
    reg: Register,
    w: i64,
    set_flags: bool,
) -> bool {
    if ok_cond {
        &&& r == Ok::<(), VmError>(())
        &&& q.registers.general@ == p.registers.general@.update(reg as int, w)
        &&& q.registers.flags == (if set_flags {
            flags_for(w, p.registers.flags)
        } else {
            p.registers.flags
        })
        &&& q.ip == i64_specs::wrapping_add(p.ip, 1)
        &&& q.sp == p.sp
        &&& q.fp == p.fp
        &&& same_tape(p, q)
        &&& q.history.stack@ == p.history.stack@.push(frame_of(p, inst))
        &&& q.history.checkpoints == p.history.checkpoints
        &&& keeps_env(p, q)
        &&& q.debug_log == p.debug_log
    } else {
        r == Err::<(), VmError>(VmError::InvalidRegister) && frame_only(p, q, inst)
    }
}

/// The journal grew by exactly `ops` and the tape now reads `snap`; the
/// checkpoints, the mark tracking and the earlier snapshots are as before.
pub open spec fn tape_step(p: VM, q: VM, ops: Seq<TrailOpV>, snap: TapeSnap) -> bool {
    &&& tape_appended(p, q, ops)
    &&& q.tape.tape@ == snap
}

/// A successful instruction that only moves the head to `target`,
/// journaling one `Seek`.
pub open spec fn seek_step(
    p: VM,
    q: VM,
    inst: Instruction,
    r: Result<(), VmError>,
    target: int,
) -> bool {
    &&& r == Ok::<(), VmError>(())
    &&& q.registers == p.registers
    &&& q.ip == i64_specs::wrapping_add(p.ip, 1)
    &&& q.sp == p.sp
    &&& q.fp == p.fp
    &&& tape_step(
        p,
        q,
        seq![TrailOpV::Seek { old_pos: p.tape.tape@.head, new_pos: target }],
        (TapeSnap { head: target, ..p.tape.tape@ }),
    )
    &&& q.history.stack@ == p.history.stack@.push(frame_of(p, inst))
    &&& q.history.checkpoints == p.history.checkpoints
    &&& keeps_env(p, q)
    &&& q.debug_log == p.debug_log
}

/// What `execute` does, instruction by instruction: the full transition
/// relation between the machine before and after one dispatch, including
/// every error case and the state it leaves behind.
pub open spec fn step_rel(p: VM, q: VM, inst: Instruction, r: Result<(), VmError>) -> bool {
    match inst {
        Instruction::IAdd { dst, src1, src2 } => reg_write_step(
            p,
            q,
            inst,
            r,
            src1 < 16 && src2 < 16 && dst < 16,
            dst,
            i64_specs::wrapping_add(rd(p, src1), rd(p, src2)),
            true,
        ),
        Instruction::ISub { dst, src1, src2 } => reg_write_step(
            p,
            q,
            inst,
            r,
            src1 < 16 && src2 < 16 && dst < 16,
            dst,
            i64_specs::wrapping_sub(rd(p, src1), rd(p, src2)),
            true,
        ),
        Instruction::IMul { dst, src1, src2 } => reg_write_step(
            p,
            q,
            inst,
            r,
            src1 < 16 && src2 < 16 && dst < 16,
            dst,
            i64_specs::wrapping_mul(rd(p, src1), rd(p, src2)),
            true,
        ),
        Instruction::IXor { dst, src1, src2 } => reg_write_step(
            p,
            q,
            inst,
            r,
            src1 < 16 && src2 < 16 && dst < 16,
            dst,
            rd(p, src1) ^ rd(p, src2),
            true,
        ),
        Instruction::Compare { dst, src1, src2 } => reg_write_step(
            p,
            q,
            inst,
            r,
            src1 < 16 && src2 < 16 && dst < 16,
            dst,
            (if rd(p, src1) < rd(p, src2) {
                -1i64
            } else if rd(p, src1) > rd(p, src2) {
                1i64
            } else {
                0i64
            }),
            true,
        ),
        Instruction::Equal { dst, src1, src2 } => reg_write_step(
            p,
            q,
            inst,
            r,
            src1 < 16 && src2 < 16 && dst < 16,
            dst,
            (if rd(p, src1) == rd(p, src2) {
                1i64
            } else {
                0i64
            }),
            true,
        ),
        Instruction::LessThan { dst, src1, src2 } => reg_write_step(
            p,
            q,
            inst,
            r,
            src1 < 16 && src2 < 16 && dst < 16,
            dst,
            (if rd(p, src1) < rd(p, src2) {
                1i64
            } else {
                0i64
            }),
            true,
        ),
        Instruction::LoadImm { reg, value } => reg_write_step(
            p,
            q,
            inst,
            r,
            reg < 16,
            reg,
            value,
            false,
        ),
        Instruction::TapeRead { reg, len } => reg_write_step(
            p,
            q,
            inst,
            r,
            reg < 16,
            reg,
            le_i64(
                read_seq(
                    p.tape.tape@.bytes,
                    p.tape.tape@.head,
                    (if len < 8 {
                        len as nat
                    } else {
                        8nat
                    }),
                ),
            ),
            false,
        ),
        Instruction::Load { reg, addr } => {
            if addr >= 16 {
                r == Err::<(), VmError>(VmError::InvalidRegister) && frame_only(p, q, inst)
            } else {
                let a = rd(p, addr);
                let seekop = TrailOpV::Seek { old_pos: p.tape.tape@.head, new_pos: a as int };
                let snap = (TapeSnap { head: a as int, ..p.tape.tape@ });
                &&& tape_step(p, q, seq![seekop], snap)
                &&& q.history.stack@ == p.history.stack@.push(frame_of(p, inst))
                &&& q.history.checkpoints == p.history.checkpoints
                &&& keeps_env(p, q)
                &&& q.debug_log == p.debug_log
                &&& q.sp == p.sp
                &&& q.fp == p.fp
                &&& (if reg < 16 {
                    &&& r == Ok::<(), VmError>(())
                    &&& q.registers.general@ == p.registers.general@.update(
                        reg as int,
                        le_i64(read_seq(p.tape.tape@.bytes, a as int, 8)),
                    )
                    &&& q.registers.flags == p.registers.flags
                    &&& q.ip == i64_specs::wrapping_add(p.ip, 1)
                } else {
                    &&& r == Err::<(), VmError>(VmError::InvalidRegister)
                    &&& q.registers == p.registers
                    &&& q.ip == p.ip
                })
            }
        }
        Instruction::Store { addr, reg } => {
            if addr >= 16 || reg >= 16 {
                r == Err::<(), VmError>(VmError::InvalidRegister) && frame_only(p, q, inst)
            } else {
                let a = rd(p, addr);
                let bytes0 = p.tape.tape@.bytes;
                let seekop = TrailOpV::Seek { old_pos: p.tape.tape@.head, new_pos: a as int };
                let writeop = TrailOpV::Write {
                    pos: a as int,
                    old: read_seq(bytes0, a as int, 8),
                    new: le_of(rd(p, reg)),
                };
                let snap = (TapeSnap {
                    head: a as int,
                    bytes: write_seq(bytes0, a as int, le_of(rd(p, reg))),
                    ..p.tape.tape@
                });
                &&& r == Ok::<(), VmError>(())
                &&& tape_step(p, q, seq![seekop, writeop], snap)
                &&& q.registers == p.registers
                &&& q.ip == i64_specs::wrapping_add(p.ip, 1)
                &&& q.sp == p.sp
                &&& q.fp == p.fp
                &&& q.history.stack@ == p.history.stack@.push(frame_of(p, inst))
                &&& q.history.checkpoints == p.history.checkpoints
                &&& keeps_env(p, q)
                &&& q.debug_log == p.debug_log
            }
        }
        Instruction::Push { reg } => {
            let sp1 = i64_specs::wrapping_sub(p.sp, 8);
            let seekop = TrailOpV::Seek { old_pos: p.tape.tape@.head, new_pos: sp1 as int };
            if reg >= 16 {
                &&& r == Err::<(), VmError>(VmError::InvalidRegister)
                &&& tape_step(p, q, seq![seekop], (TapeSnap { head: sp1 as int, ..p.tape.tape@ }))
                &&& q.registers == p.registers
                &&& q.ip == p.ip
                &&& q.sp == sp1
                &&& q.fp == p.fp
                &&& q.history.stack@ == p.history.stack@.push(frame_of(p, inst))
                &&& q.history.checkpoints == p.history.checkpoints
                &&& keeps_env(p, q)
                &&& q.debug_log == p.debug_log
            } else {
                let bytes0 = p.tape.tape@.bytes;
                let writeop = TrailOpV::Write {
                    pos: sp1 as int,
                    old: read_seq(bytes0, sp1 as int, 8),
                    new: le_of(rd(p, reg)),
                };
                let snap = (TapeSnap {
                    head: sp1 as int,
                    bytes: write_seq(bytes0, sp1 as int, le_of(rd(p, reg))),
                    ..p.tape.tape@
                });
                &&& r == Ok::<(), VmError>(())
                &&& tape_step(p, q, seq![seekop, writeop], snap)
                &&& q.registers == p.registers
                &&& q.ip == i64_specs::wrapping_add(p.ip, 1)
                &&& q.sp == sp1
                &&& q.fp == p.fp
                &&& q.history.stack@ == p.history.stack@.push(frame_of(p, inst))
                &&& q.history.checkpoints == p.history.checkpoints
                &&& keeps_env(p, q)
                &&& q.debug_log == p.debug_log
            }
        }
        Instruction::Pop { reg } => {
            let seekop = TrailOpV::Seek { old_pos: p.tape.tape@.head, new_pos: p.sp as int };
            let snap = (TapeSnap { head: p.sp as int, ..p.tape.tape@ });
            &&& tape_step(p, q, seq![seekop], snap)
            &&& q.history.stack@ == p.history.stack@.push(frame_of(p, inst))
            &&& q.history.checkpoints == p.history.checkpoints
            &&& keeps_env(p, q)
            &&& q.debug_log == p.debug_log
            &&& q.fp == p.fp
            &&& (if reg < 16 {
                &&& r == Ok::<(), VmError>(())
                &&& q.registers.general@ == p.registers.general@.update(
                    reg as int,
                    le_i64(read_seq(p.tape.tape@.bytes, p.sp as int, 8)),
                )
                &&& q.registers.flags == p.registers.flags
                &&& q.sp == i64_specs::wrapping_add(p.sp, 8)
                &&& q.ip == i64_specs::wrapping_add(p.ip, 1)
            } else {
                &&& r == Err::<(), VmError>(VmError::InvalidRegister)
                &&& q.registers == p.registers
                &&& q.sp == p.sp
                &&& q.ip == p.ip
            })
        }
        Instruction::TapeWrite { reg, len } => {
            if reg >= 16 {
                r == Err::<(), VmError>(VmError::InvalidRegister) && frame_only(p, q, inst)
            } else {
                let k = if len < 8 {
                    len as int
                } else {
                    8int
                };
                let data = le_of(rd(p, reg)).take(k);
                let h = p.tape.tape@.head;
                let writeop = TrailOpV::Write {
                    pos: h,
                    old: read_seq(p.tape.tape@.bytes, h, k as nat),
                    new: data,
                };
                let snap = (TapeSnap {
                    bytes: write_seq(p.tape.tape@.bytes, h, data),
                    ..p.tape.tape@
                });
                &&& r == Ok::<(), VmError>(())
                &&& tape_step(p, q, seq![writeop], snap)
                &&& q.registers == p.registers
                &&& q.ip == i64_specs::wrapping_add(p.ip, 1)
                &&& q.sp == p.sp
                &&& q.fp == p.fp
                &&& q.history.stack@ == p.history.stack@.push(frame_of(p, inst))
                &&& q.history.checkpoints == p.history.checkpoints
                &&& keeps_env(p, q)
                &&& q.debug_log == p.debug_log
            }
        }
        Instruction::TapeSeek { position } => seek_step(p, q, inst, r, position as int),
        Instruction::TapeSeekReg { reg } => {
            if reg >= 16 {
                r == Err::<(), VmError>(VmError::InvalidRegister) && frame_only(p, q, inst)
            } else {
                seek_step(p, q, inst, r, rd(p, reg) as int)
            }
        }
        Instruction::TapeAdvance { delta } => seek_step(
            p,
            q,
            inst,
            r,
            wrap_pos(p.tape.tape@.head + delta),
        ),
        Instruction::TapeMark { label } => {
            let h = p.tape.tape@.head;
            let markop = TrailOpV::Mark { label: label@, pos: h };
            let snap = (TapeSnap {
                marks: p.tape.tape@.marks.insert(label@, h as i64),
                ..p.tape.tape@
            });
            &&& r == Ok::<(), VmError>(())
            &&& q.tape.tape.trail_ops() == p.tape.tape.trail_ops().push(markop)
            &&& q.tape.tape@ == snap
            &&& q.tape.tape.past().len() == p.tape.tape.past().len() + 1
            &&& q.tape.tape.past().take(p.tape.tape.past().len() as int) == p.tape.tape.past()
            &&& q.tape.tape.cp_map() == p.tape.tape.cp_map()
            &&& q.tape.tape.marks_ok() == (p.tape.tape.marks_ok()
                && !p.tape.tape@.marks.dom().contains(label@))
            &&& q.registers == p.registers
            &&& q.ip == i64_specs::wrapping_add(p.ip, 1)
            &&& q.sp == p.sp
            &&& q.fp == p.fp
            &&& q.history.stack@ == p.history.stack@.push(frame_of(p, inst))
            &&& q.history.checkpoints == p.history.checkpoints
            &&& keeps_env(p, q)
            &&& q.debug_log == p.debug_log
        }
        Instruction::TapeSeekMark { label } => {
            if p.tape.tape@.marks.dom().contains(label@) {
                seek_step(p, q, inst, r, p.tape.tape@.marks[label@] as int)
            } else {
                r == Err::<(), VmError>(VmError::UnknownMark) && frame_only(p, q, inst)
            }
        }
        Instruction::Jump { label } => {
            match resolve_spec(p, label@) {
                Some(t) => {
                    &&& r == Ok::<(), VmError>(())
                    &&& q.ip == t
                    &&& q.registers == p.registers
                    &&& q.sp == p.sp
                    &&& q.fp == p.fp
                    &&& same_tape(p, q)
                    &&& q.history.stack@ == p.history.stack@.push(frame_of(p, inst))
                    &&& q.history.checkpoints == p.history.checkpoints
                    &&& keeps_env(p, q)
                    &&& q.debug_log == p.debug_log
                }
                None => r == Err::<(), VmError>(VmError::UnknownLabel) && frame_only(p, q, inst),
            }
        }
        Instruction::BranchZero { reg, label } => {
            if reg >= 16 {
                r == Err::<(), VmError>(VmError::InvalidRegister) && frame_only(p, q, inst)
            } else if rd(p, reg) == 0 {
                match resolve_spec(p, label@) {
                    Some(t) => {
                        &&& r == Ok::<(), VmError>(())
                        &&& q.ip == t
                        &&& q.registers == p.registers
                        &&& q.sp == p.sp
                        &&& q.fp == p.fp
                        &&& same_tape(p, q)
                        &&& q.history.stack@ == p.history.stack@.push(frame_of(p, inst))
                        &&& q.history.checkpoints == p.history.checkpoints
                        &&& keeps_env(p, q)
                        &&& q.debug_log == p.debug_log
                    }
                    None => r == Err::<(), VmError>(VmError::UnknownLabel) && frame_only(
                        p,
                        q,
                        inst,
                    ),
                }
            } else {
                &&& r == Ok::<(), VmError>(())
                &&& q.ip == i64_specs::wrapping_add(p.ip, 1)
                &&& q.registers == p.registers
                &&& q.sp == p.sp
                &&& q.fp == p.fp
                &&& same_tape(p, q)
                &&& q.history.stack@ == p.history.stack@.push(frame_of(p, inst))
                &&& q.history.checkpoints == p.history.checkpoints
                &&& keeps_env(p, q)
                &&& q.debug_log == p.debug_log
            }
        }
        Instruction::BranchNotZero { reg, label } => {
            if reg >= 16 {
                r == Err::<(), VmError>(VmError::InvalidRegister) && frame_only(p, q, inst)
            } else if rd(p, reg) != 0 {
                match resolve_spec(p, label@) {
                    Some(t) => {
                        &&& r == Ok::<(), VmError>(())
                        &&& q.ip == t
                        &&& q.registers == p.registers
                        &&& q.sp == p.sp
                        &&& q.fp == p.fp
                        &&& same_tape(p, q)
                        &&& q.history.stack@ == p.history.stack@.push(frame_of(p, inst))
                        &&& q.history.checkpoints == p.history.checkpoints
                        &&& keeps_env(p, q)
                        &&& q.debug_log == p.debug_log
                    }
                    None => r == Err::<(), VmError>(VmError::UnknownLabel) && frame_only(
                        p,
                        q,
                        inst,
                    ),
                }
            } else {
                &&& r == Ok::<(), VmError>(())
                &&& q.ip == i64_specs::wrapping_add(p.ip, 1)
                &&& q.registers == p.registers
                &&& q.sp == p.sp
                &&& q.fp == p.fp
                &&& same_tape(p, q)
                &&& q.history.stack@ == p.history.stack@.push(frame_of(p, inst))
                &&& q.history.checkpoints == p.history.checkpoints
                &&& keeps_env(p, q)
                &&& q.debug_log == p.debug_log
            }
        }
        Instruction::Call { label } => {
            let h = p.tape.tape@.head;
            let bytes0 = p.tape.tape@.bytes;
            let sp1 = i64_specs::wrapping_sub(p.sp, 8);
            let sp2 = i64_specs::wrapping_sub(sp1, 8);
            let ra = i64_specs::wrapping_add(p.ip, 1);
            let bytes1 = write_seq(bytes0, sp1 as int, le_of(ra));
            let bytes2 = write_seq(bytes1, sp2 as int, le_of(p.fp));
            let ops = seq![
                TrailOpV::Seek { old_pos: h, new_pos: sp1 as int },
                TrailOpV::Write {
                    pos: sp1 as int,
                    old: read_seq(bytes0, sp1 as int, 8),
                    new: le_of(ra),
                },
                TrailOpV::Seek { old_pos: sp1 as int, new_pos: sp2 as int },
                TrailOpV::Write {
                    pos: sp2 as int,
                    old: read_seq(bytes1, sp2 as int, 8),
                    new: le_of(p.fp),
                },
            ];
            let snap = (TapeSnap { head: sp2 as int, bytes: bytes2, ..p.tape.tape@ });
            &&& tape_step(p, q, ops, snap)
            &&& q.registers == p.registers
            &&& q.sp == sp2
            &&& q.fp == sp2
            &&& q.history.stack@ == p.history.stack@.push(frame_of(p, inst))
            &&& q.history.checkpoints == p.history.checkpoints
            &&& keeps_env(p, q)
            &&& q.debug_log == p.debug_log
            &&& (match resolve_spec(p, label@) {
                Some(t) => r == Ok::<(), VmError>(()) && q.ip == t,
                None => r == Err::<(), VmError>(VmError::UnknownLabel) && q.ip == p.ip,
            })
        }
        Instruction::Return => {
            let h = p.tape.tape@.head;
            let bytes0 = p.tape.tape@.bytes;
            let fpv = le_i64(read_seq(bytes0, p.fp as int, 8));
            let sp1 = i64_specs::wrapping_add(p.fp, 8);
            let ipv = le_i64(read_seq(bytes0, sp1 as int, 8));
            let sp2 = i64_specs::wrapping_add(sp1, 8);
            let ops = seq![
                TrailOpV::Seek { old_pos: h, new_pos: p.fp as int },
                TrailOpV::Seek { old_pos: p.fp as int, new_pos: sp1 as int },
            ];
            let snap = (TapeSnap { head: sp1 as int, ..p.tape.tape@ });
            &&& r == Ok::<(), VmError>(())
            &&& tape_step(p, q, ops, snap)
            &&& q.registers == p.registers
            &&& q.fp == fpv
            &&& q.sp == sp2
            &&& q.ip == ipv
            &&& q.history.stack@ == p.history.stack@.push(frame_of(p, inst))
            &&& q.history.checkpoints == p.history.checkpoints
            &&& keeps_env(p, q)
            &&& q.debug_log == p.debug_log
        }
        Instruction::Checkpoint { label } => {
            &&& r == Ok::<(), VmError>(())
            &&& q.tape.tape@ == p.tape.tape@
            &&& q.tape.tape.trail_ops() == p.tape.tape.trail_ops()
            &&& q.tape.tape.past() == p.tape.tape.past()
            &&& q.tape.tape.cp_map() == p.tape.tape.cp_map().insert(
                label@,
                p.tape.tape.trail_ops().len() as usize,
            )
            &&& q.tape.tape.marks_ok() == p.tape.tape.marks_ok()
            &&& q.registers == p.registers
            &&& q.ip == i64_specs::wrapping_add(p.ip, 1)
            &&& q.sp == p.sp
            &&& q.fp == p.fp
            &&& q.history.stack@ == p.history.stack@.push(frame_of(p, inst))
            &&& vm_cps(q) == vm_cps(p).insert(label@, (p.history.stack@.len() + 1) as usize)
            &&& keeps_env(p, q)
            &&& q.debug_log == p.debug_log
        }
        Instruction::Rewind { label } => {
            if !p.tape.tape.cp_map().dom().contains(label@) {
                r == Err::<(), VmError>(VmError::UnknownCheckpoint) && frame_only(p, q, inst)
            } else {
                let t = Tape::keep_to(
                    p.tape.tape.trail_ops().len(),
                    p.tape.tape.cp_map()[label@] as nat,
                );
                let stack1 = p.history.stack@.push(frame_of(p, inst));
                let stack2 = (if vm_cps(p).dom().contains(label@) && vm_cps(p)[label@]
                    < stack1.len() {
                    stack1.take(vm_cps(p)[label@] as int)
                } else {
                    stack1
                });
                let restored = vm_cps(p).dom().contains(label@) && stack2.len() >= 1;
                &&& r == Ok::<(), VmError>(())
                &&& q.tape.tape.trail_ops() == p.tape.tape.trail_ops().take(t)
                &&& q.tape.tape@.head == p.tape.tape.past()[t].head
                &&& q.tape.tape@.bytes == p.tape.tape.past()[t].bytes
                &&& (p.tape.tape.marks_ok() ==> q.tape.tape@ == p.tape.tape.past()[t])
                &&& q.tape.tape.past() == p.tape.tape.past().take(t + 1).update(t, q.tape.tape@)
                &&& q.tape.tape.cp_map() == p.tape.tape.cp_map()
                &&& q.tape.tape.marks_ok() == p.tape.tape.marks_ok()
                &&& q.history.stack@ == stack2
                &&& q.history.checkpoints == p.history.checkpoints
                &&& (if restored {
                    // the pointer resumes after the restored frame's
                    // instruction, so a rewind to a checkpoint lands on
                    // the state right after the checkpoint was recorded
                    &&& q.registers == stack2.last().registers_before
                    &&& q.ip == i64_specs::wrapping_add(stack2.last().ip_before, 1)
                    &&& q.sp == stack2.last().sp_before
                    &&& q.fp == stack2.last().fp_before
                } else {
                    &&& q.registers == p.registers
                    &&& q.ip == p.ip
                    &&& q.sp == p.sp
                    &&& q.fp == p.fp
                })
                &&& keeps_env(p, q)
                &&& q.debug_log == p.debug_log
            }
        }
        Instruction::RewindN { steps } => {
            if steps >= 16 {
                r == Err::<(), VmError>(VmError::InvalidRegister) && frame_only(p, q, inst)
            } else {
                let n0 = rd(p, steps);
                let depth = p.history.stack@.len() + 1;
                let c = (if n0 <= 0 {
                    0int
                } else if n0 <= depth {
                    n0 as int
                } else {
                    depth as int
                });
                &&& r == Ok::<(), VmError>(())
                &&& exists|vs: Seq<VM>|
                    {
                        &&& vs.len() == c + 1
                        &&& frame_only(p, #[trigger] vs[0], inst)
                        &&& vs[0].inv()
                        &&& (forall|i: int| 0 <= i < c ==> reverse_rel(#[trigger] vs[i], vs[i + 1]))
                        &&& vs[c] == q
                    }
            }
        }
        Instruction::Halt => r == Err::<(), VmError>(VmError::Halt) && frame_only(p, q, inst),
        Instruction::Nop => {
            &&& r == Ok::<(), VmError>(())
            &&& q.ip == i64_specs::wrapping_add(p.ip, 1)
            &&& q.registers == p.registers
            &&& q.sp == p.sp
            &&& q.fp == p.fp
            &&& same_tape(p, q)
            &&& q.history.stack@ == p.history.stack@.push(frame_of(p, inst))
            &&& q.history.checkpoints == p.history.checkpoints
            &&& keeps_env(p, q)
            &&& q.debug_log == p.debug_log
        }
        Instruction::Debug { message } => {
            &&& r == Ok::<(), VmError>(())
            &&& q.ip == i64_specs::wrapping_add(p.ip, 1)
            &&& q.registers == p.registers
            &&& q.sp == p.sp
            &&& q.fp == p.fp
            &&& same_tape(p, q)
            &&& q.history.stack@ == p.history.stack@.push(frame_of(p, inst))
            &&& q.history.checkpoints == p.history.checkpoints
            &&& keeps_env(p, q)
            &&& q.debug_log@ == p.debug_log@.push(message)
        }
        _ => r == Err::<(), VmError>(VmError::UnimplementedInstruction) && frame_only(p, q, inst),
    }
}

/// A sequence one longer than a prefix is that prefix plus its last
/// element.
proof fn lemma_seq_shape1<T>(s0: Seq<T>, s1: Seq<T>)
    requires
        s1.len() == s0.len() + 1,
        forall|i: int| 0 <= i < s0.len() ==> s1[i] == s0[i],
    ensures
        s1 == s0 + seq![s1[s0.len() as int]],
        s1.take(s0.len() as int) == s0,
{
    assert(s1 =~= s0 + seq![s1[s0.len() as int]]);
    assert(s1.take(s0.len() as int) =~= s0);
}

/// The same, two elements longer.
proof fn lemma_seq_shape2<T>(s0: Seq<T>, s1: Seq<T>)
    requires
        s1.len() == s0.len() + 2,
        forall|i: int| 0 <= i < s0.len() ==> s1[i] == s0[i],
    ensures
        s1 == s0 + seq![s1[s0.len() as int], s1[s0.len() as int + 1]],
        s1.take(s0.len() as int) == s0,
{
    assert(s1 =~= s0 + seq![s1[s0.len() as int], s1[s0.len() as int + 1]]);
    assert(s1.take(s0.len() as int) =~= s0);
}

/// The same, four elements longer.
proof fn lemma_seq_shape4<T>(s0: Seq<T>, s1: Seq<T>)
    requires
        s1.len() == s0.len() + 4,
        forall|i: int| 0 <= i < s0.len() ==> s1[i] == s0[i],
    ensures
        s1 == s0 + seq![
            s1[s0.len() as int],
            s1[s0.len() as int + 1],
            s1[s0.len() as int + 2],
            s1[s0.len() as int + 3],
        ],
        s1.take(s0.len() as int) == s0,
{
    assert(s1 =~= s0 + seq![
        s1[s0.len() as int],
        s1[s0.len() as int + 1],
        s1[s0.len() as int + 2],
        s1[s0.len() as int + 3],
    ]);
    assert(s1.take(s0.len() as int) =~= s0);
}

impl VM {
    /// The machine's invariant.
    pub open spec fn inv(self) -> bool {
        &&& self.tape.inv()
        &&& keys_unique(self.symbols@)
        &&& keys_unique(self.history.checkpoints@)
    }

    /// A fresh machine: three one-mebibyte segments — code, stack, heap —
    /// at contiguous starts, the stack and frame pointers at the top of
    /// the stack segment, everything else empty.
    pub fn new() -> (r: VM)
        ensures
            r.inv(),
            r.ip == 0,
            r.sp == 0x100000,
            r.fp == 0x100000,
            r.registers.general@ == Seq::new(16, |i: int| 0i64),
            r.registers.flags == (crate::registers::Flags {
                zero: false,
                carry: false,
                overflow: false,
                negative: false,
            }),
            r.history.stack@.len() == 0,
            r.history.checkpoints@.len() == 0,
            r.symbols@.len() == 0,
            r.timelines@.len() == 0,
            r.current_timeline@ == "main"@,
            r.debug_log@.len() == 0,
            r.tape.tape@.head == 0,
            r.tape.tape@.bytes == crate::tape::zero_bytes(),
            r.tape.tape@.marks == Map::<Seq<char>, i64>::empty(),
            r.tape.tape.cp_map() == Map::<Seq<char>, usize>::empty(),
            r.tape.tape.trail_ops().len() == 3,
            r.tape.tape.trail_ops() == seq![
                TrailOpV::SegmentCreate { name: "code"@, start: 0, size: 0x100000 },
                TrailOpV::SegmentCreate { name: "stack"@, start: 0x100000, size: 0x100000 },
                TrailOpV::SegmentCreate { name: "heap"@, start: 0x200000, size: 0x100000 },
            ],
            r.tape.tape.marks_ok(),
            r.tape.seg_list().len() == 3,
            r.tape.seg_list()[0].name@ == "code"@ && r.tape.seg_list()[0].start == 0
                && r.tape.seg_list()[0].size == 0x100000,
            r.tape.seg_list()[1].name@ == "stack"@ && r.tape.seg_list()[1].start == 0x100000
                && r.tape.seg_list()[1].size == 0x100000,
            r.tape.seg_list()[2].name@ == "heap"@ && r.tape.seg_list()[2].start == 0x200000
                && r.tape.seg_list()[2].size == 0x100000,
    {
        let mut tape = SegmentedTape::new();
        let ghost ss0 = tape.seg_list();
        let r1 = tape.create_segment(String::from_str("code"), 0x100000, SegmentType::Code);
        proof {
            reveal_strlit("code");
            reveal_strlit("stack");
            reveal_strlit("heap");
            assert(crate::segment::first_fit(ss0, 0, 0x100000) == 0);
            assert(crate::segment::first_fit_idx(ss0, 0, 0x100000) == 0);
            assert(r1 is Ok);
            assert(tape.seg_list().len() == 1);
            assert(tape.seg_list()[0].start == 0 && tape.seg_list()[0].size == 0x100000);
            assert(crate::segment::segs_end(tape.seg_list()) == 0x100000);
        }
        let ghost ss1 = tape.seg_list();
        let r2 = tape.create_segment(String::from_str("stack"), 0x100000, SegmentType::Stack);
        proof {
            reveal_strlit("code");
            reveal_strlit("stack");
            reveal_strlit("heap");
            assert(ss1.len() == 1);
            assert("code"@.len() == 4);
            assert("stack"@.len() == 5);
            assert(ss1[0].name@ == "code"@);
            assert(ss1[0].name@ != "stack"@);
            assert(ss1.skip(1) =~= Seq::<crate::segment::Segment>::empty());
            assert(crate::segment::first_fit(ss1, 0, 0x100000) == crate::segment::first_fit(
                ss1.skip(1),
                0x100000,
                0x100000,
            ));
            assert(crate::segment::first_fit(ss1, 0, 0x100000) == 0x100000);
            assert(crate::segment::first_fit_idx(ss1, 0, 0x100000) == 1
                + crate::segment::first_fit_idx(ss1.skip(1), 0x100000, 0x100000));
            assert(crate::segment::first_fit_idx(ss1, 0, 0x100000) == 1);
            assert(r2 is Ok);
            assert(tape.seg_list().len() == 2);
            assert(tape.seg_list()[0] == ss1[0]);
            assert(tape.seg_list()[1].start == 0x100000 && tape.seg_list()[1].size == 0x100000);
            assert(crate::segment::segs_end(tape.seg_list()) == 0x200000);
        }
        let ghost ss2 = tape.seg_list();
        let r3 = tape.create_segment(String::from_str("heap"), 0x100000, SegmentType::Heap);
        proof {
            reveal_strlit("code");
            reveal_strlit("stack");
            reveal_strlit("heap");
            assert(ss2.len() == 2);
            assert(ss2[0].name@ == "code"@);
            assert(ss2[1].name@ == "stack"@);
            assert("code"@[0] == 'c' && "heap"@[0] == 'h' && "heap"@.len() == 4);
            assert(ss2[0].name@ != "heap"@);
            assert(ss2[1].name@ != "heap"@);
            assert(ss2.skip(1)[0] == ss2[1]);
            assert(ss2.skip(1).skip(1) =~= Seq::<crate::segment::Segment>::empty());
            assert(crate::segment::first_fit(ss2, 0, 0x100000) == crate::segment::first_fit(
                ss2.skip(1),
                0x100000,
                0x100000,
            ));
            assert(crate::segment::first_fit(ss2.skip(1), 0x100000, 0x100000)
                == crate::segment::first_fit(ss2.skip(1).skip(1), 0x200000, 0x100000));
            assert(crate::segment::first_fit(ss2, 0, 0x100000) == 0x200000);
            assert(crate::segment::first_fit_idx(ss2, 0, 0x100000) == 1
                + crate::segment::first_fit_idx(ss2.skip(1), 0x100000, 0x100000));
            assert(crate::segment::first_fit_idx(ss2.skip(1), 0x100000, 0x100000) == 1
                + crate::segment::first_fit_idx(ss2.skip(1).skip(1), 0x200000, 0x100000));
            assert(crate::segment::first_fit_idx(ss2, 0, 0x100000) == 2);
            assert(r3 is Ok);
            assert(tape.seg_list().len() == 3);
            assert(tape.seg_list()[0] == ss2[0]);
            assert(tape.seg_list()[1] == ss2[1]);
            assert(tape.seg_list()[2].start == 0x200000 && tape.seg_list()[2].size == 0x100000);
            assert(tape.tape.trail_ops() =~= seq![
                TrailOpV::SegmentCreate { name: "code"@, start: 0, size: 0x100000 },
                TrailOpV::SegmentCreate { name: "stack"@, start: 0x100000, size: 0x100000 },
                TrailOpV::SegmentCreate { name: "heap"@, start: 0x200000, size: 0x100000 },
            ]);
        }
        VM {
            tape,
            registers: RegisterFile::new(),
            ip: 0,
            sp: 0x100000,
            fp: 0x100000,
            history: ExecutionHistory::new(),
            timelines: Vec::new(),
            current_timeline: String::from_str("main"),
            symbols: Vec::new(),
            debug_log: Vec::new(),
        }
    }

    /// Bind a label to an instruction index in the symbol table.
    pub fn define_symbol(&mut self, name: String, value: i64)
        requires
            old(self).inv(),
        ensures
            final(self).inv(),
            sym_map(*final(self)) == sym_map(*old(self)).insert(name@, value),
            final(self).tape == old(self).tape,
            final(self).registers == old(self).registers,
            final(self).ip == old(self).ip,
            final(self).sp == old(self).sp,
            final(self).fp == old(self).fp,
            final(self).history == old(self).history,
            final(self).timelines == old(self).timelines,
            final(self).current_timeline == old(self).current_timeline,
            final(self).debug_log == old(self).debug_log,
    {
        assoc_set(&mut self.symbols, name, value);
    }

    /// Record the loaded program: its length becomes the synthetic symbol
    /// `__program_size__`.  The instructions themselves stay with the
    /// host, indexed by the instruction pointer.
    pub fn load_program(&mut self, instructions: Vec<Instruction>) -> (r: Result<(), VmError>)
        requires
            old(self).inv(),
        ensures
            final(self).inv(),
            r == Ok::<(), VmError>(()),
            sym_map(*final(self)) == sym_map(*old(self)).insert(
                "__program_size__"@,
                instructions@.len() as i64,
            ),
            final(self).tape == old(self).tape,
            final(self).registers == old(self).registers,
            final(self).ip == old(self).ip,
            final(self).sp == old(self).sp,
            final(self).fp == old(self).fp,
            final(self).history == old(self).history,
            final(self).timelines == old(self).timelines,
            final(self).current_timeline == old(self).current_timeline,
            final(self).debug_log == old(self).debug_log,
    {
        let len = instructions.len();
        self.define_symbol(String::from_str("__program_size__"), len as i64);
        Ok(())
    }

    /// Resolve a control-transfer target: the symbol table first, then
    /// the tape's marks; unknown names fail.
    fn resolve_label(&self, label: &str) -> (r: Result<i64, VmError>)
        requires
            self.inv(),
        ensures
            r == (match resolve_spec(*self, label@) {
                Some(v) => Ok::<i64, VmError>(v),
                None => Err::<i64, VmError>(VmError::UnknownLabel),
            }),
    {
        match assoc_index(&self.symbols, label) {
            Some(i) => {
                proof {
                    lemma_assoc_at(self.symbols@, i as int);
                }
                Ok(self.symbols[i].1)
            }
            None => {
                match self.tape.tape.get_mark(label) {
                    Some(p) => Ok(p),
                    None => Err(VmError::UnknownLabel),
                }
            }
        }
    }

    /// Push the frame that makes the next effect reversible.
    fn save_history_frame(&mut self, instruction: Instruction)
        requires
            old(self).inv(),
        ensures
            final(self).inv(),
            final(self).history.stack@ == old(self).history.stack@.push(
                frame_of(*old(self), instruction),
            ),
            final(self).history.checkpoints == old(self).history.checkpoints,
            final(self).tape == old(self).tape,
            final(self).registers == old(self).registers,
            final(self).ip == old(self).ip,
            final(self).sp == old(self).sp,
            final(self).fp == old(self).fp,
            final(self).timelines == old(self).timelines,
            final(self).current_timeline == old(self).current_timeline,
            final(self).symbols == old(self).symbols,
            final(self).debug_log == old(self).debug_log,
    {
        let len = self.tape.tape.trail_len();
        let frame = HistoryFrame {
            instruction,
            registers_before: self.registers,
            ip_before: self.ip,
            sp_before: self.sp,
            fp_before: self.fp,
            tape_trail_len: len,
        };
        self.history.stack.push(frame);
    }

    /// Execute a single instruction: push the frame that makes it
    /// reversible, then perform its effect.  The whole transition,
    /// including every error case, is `step_rel`.
    /// Execute a single instruction: push the frame that makes it
    /// reversible, then perform its effect.  The whole transition,
    /// including every error case, is `step_rel`.
    pub fn execute(&mut self, inst: Instruction) -> (r: Result<(), VmError>)
        requires
            old(self).inv(),
        ensures
            final(self).inv(),
            step_rel(*old(self), *final(self), inst, r),
    {
        match inst {
            i @ (Instruction::IAdd { .. } | Instruction::ISub { .. } | Instruction::IMul {
                ..
            } | Instruction::IXor { .. } | Instruction::Compare { .. } | Instruction::Equal {
                ..
            } | Instruction::LessThan { .. } | Instruction::LoadImm { .. }) => self.step_arith(i),
            i @ (Instruction::Load { .. } | Instruction::Store { .. } | Instruction::Pop {
                ..
            }) => self.step_memory(i),
            i @ (Instruction::Push { .. } | Instruction::TapeRead { .. } | Instruction::TapeWrite {
                ..
            }) => self.step_stack_io(i),
            i @ (Instruction::TapeSeek { .. } | Instruction::TapeSeekReg {
                ..
            } | Instruction::TapeAdvance { .. } | Instruction::TapeMark {
                ..
            } | Instruction::TapeSeekMark { .. }) => self.step_motion(i),
            i @ (Instruction::Jump { .. } | Instruction::BranchZero {
                ..
            } | Instruction::BranchNotZero { .. }) => self.step_branch(i),
            i @ Instruction::Call { .. } => self.step_call(i),
            i @ Instruction::Return => self.step_return(i),
            i @ Instruction::Checkpoint { .. } => self.step_checkpoint(i),
            i @ Instruction::Rewind { .. } => self.step_rewind(i),
            i @ Instruction::RewindN { .. } => self.step_rewind_n(i),
            i => self.step_misc(i),
        }
    }

    #[verifier::rlimit(100)]
    fn step_arith(&mut self, inst: Instruction) -> (r: Result<(), VmError>)
        requires
            old(self).inv(),
            inst is IAdd || inst is ISub || inst is IMul || inst is IXor || inst is Compare || inst is Equal || inst is LessThan || inst is LoadImm,
        ensures
            final(self).inv(),
            step_rel(*old(self), *final(self), inst, r),
    {
        self.save_history_frame(inst.clone());
        let ghost p0 = *old(self);
        match inst {

            Instruction::IAdd { dst, src1, src2 } => {
                let v1 = match self.registers.read(src1) {
                    Ok(v) => v,
                    Err(e) => {
                        return Err(e);
                    }
                };
                let v2 = match self.registers.read(src2) {
                    Ok(v) => v,
                    Err(e) => {
                        return Err(e);
                    }
                };
                let w = v1.wrapping_add(v2);
                match self.registers.write(dst, w) {
                    Ok(u) => u,
                    Err(e) => {
                        return Err(e);
                    }
                }
                self.registers.update_flags(w);
            }

            Instruction::ISub { dst, src1, src2 } => {
                let v1 = match self.registers.read(src1) {
                    Ok(v) => v,
                    Err(e) => {
                        return Err(e);
                    }
                };
                let v2 = match self.registers.read(src2) {
                    Ok(v) => v,
                    Err(e) => {
                        return Err(e);
                    }
                };
                let w = v1.wrapping_sub(v2);
                match self.registers.write(dst, w) {
                    Ok(u) => u,
                    Err(e) => {
                        return Err(e);
                    }
                }
                self.registers.update_flags(w);
            }

            Instruction::IMul { dst, src1, src2 } => {
                let v1 = match self.registers.read(src1) {
                    Ok(v) => v,
                    Err(e) => {
                        return Err(e);
                    }
                };
                let v2 = match self.registers.read(src2) {
                    Ok(v) => v,
                    Err(e) => {
                        return Err(e);
                    }
                };
                let w = v1.wrapping_mul(v2);
                match self.registers.write(dst, w) {
                    Ok(u) => u,
                    Err(e) => {
                        return Err(e);
                    }
                }
                self.registers.update_flags(w);
            }

            Instruction::IXor { dst, src1, src2 } => {
                let v1 = match self.registers.read(src1) {
                    Ok(v) => v,
                    Err(e) => {
                        return Err(e);
                    }
                };
                let v2 = match self.registers.read(src2) {
                    Ok(v) => v,
                    Err(e) => {
                        return Err(e);
                    }
                };
                let w = v1 ^ v2;
                match self.registers.write(dst, w) {
                    Ok(u) => u,
                    Err(e) => {
                        return Err(e);
                    }
                }
                self.registers.update_flags(w);
            }

            Instruction::Compare { dst, src1, src2 } => {
                let v1 = match self.registers.read(src1) {
                    Ok(v) => v,
                    Err(e) => {
                        return Err(e);
                    }
                };
                let v2 = match self.registers.read(src2) {
                    Ok(v) => v,
                    Err(e) => {
                        return Err(e);
                    }
                };
                let w: i64 = if v1 < v2 {
                    -1
                } else if v1 > v2 {
                    1
                } else {
                    0
                };
                match self.registers.write(dst, w) {
                    Ok(u) => u,
                    Err(e) => {
                        return Err(e);
                    }
                }
                self.registers.update_flags(w);
            }

            Instruction::Equal { dst, src1, src2 } => {
                let v1 = match self.registers.read(src1) {
                    Ok(v) => v,
                    Err(e) => {
                        return Err(e);
                    }
                };
                let v2 = match self.registers.read(src2) {
                    Ok(v) => v,
                    Err(e) => {
                        return Err(e);
                    }
                };
                let w: i64 = if v1 == v2 {
                    1
                } else {
                    0
                };
                match self.registers.write(dst, w) {
                    Ok(u) => u,
                    Err(e) => {
                        return Err(e);
                    }
                }
                self.registers.update_flags(w);
            }

            Instruction::LessThan { dst, src1, src2 } => {
                let v1 = match self.registers.read(src1) {
                    Ok(v) => v,
                    Err(e) => {
                        return Err(e);
                    }
                };
                let v2 = match self.registers.read(src2) {
                    Ok(v) => v,
                    Err(e) => {
                        return Err(e);
                    }
                };
                let w: i64 = if v1 < v2 {
                    1
                } else {
                    0
                };
                match self.registers.write(dst, w) {
                    Ok(u) => u,
                    Err(e) => {
                        return Err(e);
                    }
                }
                self.registers.update_flags(w);
            }

            Instruction::LoadImm { reg, value } => {
                match self.registers.write(reg, value) {
                    Ok(u) => u,
                    Err(e) => {
                        return Err(e);
                    }
                }
            }
            _ => {
                proof {
                    assert(false);
                }
                return Err(VmError::Halt);
            }
        }
        self.ip = self.ip.wrapping_add(1);
        Ok(())
    }

    #[verifier::rlimit(100)]
    fn step_memory(&mut self, inst: Instruction) -> (r: Result<(), VmError>)
        requires
            old(self).inv(),
            inst is Load || inst is Store || inst is Pop,
        ensures
            final(self).inv(),
            step_rel(*old(self), *final(self), inst, r),
    {
        self.save_history_frame(inst.clone());
        let ghost p0 = *old(self);
        match inst {

            Instruction::Load { reg, addr } => {
                let address = match self.registers.read(addr) {
                    Ok(v) => v,
                    Err(e) => {
                        return Err(e);
                    }
                };
                self.tape.tape.seek(address);
                proof {
                    lemma_seq_shape1(p0.tape.tape.trail_ops(), self.tape.tape.trail_ops());
                    lemma_seq_shape1(p0.tape.tape.past(), self.tape.tape.past());
                }
                let data = self.tape.tape.read(8);
                let value = le_decode(&data);
                match self.registers.write(reg, value) {
                    Ok(u) => u,
                    Err(e) => {
                        return Err(e);
                    }
                }
            }

            Instruction::Store { addr, reg } => {
                let address = match self.registers.read(addr) {
                    Ok(v) => v,
                    Err(e) => {
                        return Err(e);
                    }
                };
                let value = match self.registers.read(reg) {
                    Ok(v) => v,
                    Err(e) => {
                        return Err(e);
                    }
                };
                self.tape.tape.seek(address);
                let b = le_encode(value);
                self.tape.tape.write(b.as_slice());
                proof {
                    lemma_seq_shape2(p0.tape.tape.trail_ops(), self.tape.tape.trail_ops());
                    lemma_seq_shape2(p0.tape.tape.past(), self.tape.tape.past());
                }
            }

            Instruction::Pop { reg } => {
                let sp0 = self.sp;
                self.tape.tape.seek(sp0);
                proof {
                    lemma_seq_shape1(p0.tape.tape.trail_ops(), self.tape.tape.trail_ops());
                    lemma_seq_shape1(p0.tape.tape.past(), self.tape.tape.past());
                }
                let data = self.tape.tape.read(8);
                let value = le_decode(&data);
                match self.registers.write(reg, value) {
                    Ok(u) => u,
                    Err(e) => {
                        return Err(e);
                    }
                }
                self.sp = self.sp.wrapping_add(8);
            }
            _ => {
                proof {
                    assert(false);
                }
                return Err(VmError::Halt);
            }
        }
        self.ip = self.ip.wrapping_add(1);
        Ok(())
    }

    #[verifier::rlimit(100)]
    fn step_stack_io(&mut self, inst: Instruction) -> (r: Result<(), VmError>)
        requires
            old(self).inv(),
            inst is Push || inst is TapeRead || inst is TapeWrite,
        ensures
            final(self).inv(),
            step_rel(*old(self), *final(self), inst, r),
    {
        self.save_history_frame(inst.clone());
        let ghost p0 = *old(self);
        match inst {

            Instruction::Push { reg } => {
                let sp1 = self.sp.wrapping_sub(8);
                self.sp = sp1;
                self.tape.tape.seek(sp1);
                proof {
                    lemma_seq_shape1(p0.tape.tape.trail_ops(), self.tape.tape.trail_ops());
                    lemma_seq_shape1(p0.tape.tape.past(), self.tape.tape.past());
                }
                let value = match self.registers.read(reg) {
                    Ok(v) => v,
                    Err(e) => {
                        return Err(e);
                    }
                };
                let b = le_encode(value);
                self.tape.tape.write(b.as_slice());
                proof {
                    lemma_seq_shape2(p0.tape.tape.trail_ops(), self.tape.tape.trail_ops());
                    lemma_seq_shape2(p0.tape.tape.past(), self.tape.tape.past());
                }
            }

            Instruction::TapeRead { reg, len } => {
                let mut data = self.tape.tape.read(len as usize);
                let copy_len: usize = if len < 8 {
                    len as usize
                } else {
                    8
                };
                data.truncate(copy_len);
                proof {
                    assert(data@ =~= read_seq(
                        p0.tape.tape@.bytes,
                        p0.tape.tape@.head,
                        (if len < 8 {
                            len as nat
                        } else {
                            8nat
                        }),
                    ));
                }
                let value = le_decode(&data);
                match self.registers.write(reg, value) {
                    Ok(u) => u,
                    Err(e) => {
                        return Err(e);
                    }
                }
            }

            Instruction::TapeWrite { reg, len } => {
                let value = match self.registers.read(reg) {
                    Ok(v) => v,
                    Err(e) => {
                        return Err(e);
                    }
                };
                let mut b = le_encode(value);
                let copy_len: usize = if len < 8 {
                    len as usize
                } else {
                    8
                };
                b.truncate(copy_len);
                self.tape.tape.write(b.as_slice());
                proof {
                    lemma_seq_shape1(p0.tape.tape.trail_ops(), self.tape.tape.trail_ops());
                    lemma_seq_shape1(p0.tape.tape.past(), self.tape.tape.past());
                }
            }
            _ => {
                proof {
                    assert(false);
                }
                return Err(VmError::Halt);
            }
        }
        self.ip = self.ip.wrapping_add(1);
        Ok(())
    }

    #[verifier::rlimit(100)]
    fn step_motion(&mut self, inst: Instruction) -> (r: Result<(), VmError>)
        requires
            old(self).inv(),
            inst is TapeSeek || inst is TapeSeekReg || inst is TapeAdvance || inst is TapeMark || inst is TapeSeekMark,
        ensures
            final(self).inv(),
            step_rel(*old(self), *final(self), inst, r),
    {
        self.save_history_frame(inst.clone());
        let ghost p0 = *old(self);
        match inst {

            Instruction::TapeSeek { position } => {
                self.tape.tape.seek(position);
                proof {
                    lemma_seq_shape1(p0.tape.tape.trail_ops(), self.tape.tape.trail_ops());
                    lemma_seq_shape1(p0.tape.tape.past(), self.tape.tape.past());
                }
            }

            Instruction::TapeSeekReg { reg } => {
                let position = match self.registers.read(reg) {
                    Ok(v) => v,
                    Err(e) => {
                        return Err(e);
                    }
                };
                self.tape.tape.seek(position);
                proof {
                    lemma_seq_shape1(p0.tape.tape.trail_ops(), self.tape.tape.trail_ops());
                    lemma_seq_shape1(p0.tape.tape.past(), self.tape.tape.past());
                }
            }

            Instruction::TapeAdvance { delta } => {
                self.tape.tape.advance(delta);
                proof {
                    lemma_seq_shape1(p0.tape.tape.trail_ops(), self.tape.tape.trail_ops());
                    lemma_seq_shape1(p0.tape.tape.past(), self.tape.tape.past());
                }
            }

            Instruction::TapeMark { label } => {
                self.tape.tape.mark(label);
                proof {
                    lemma_seq_shape1(p0.tape.tape.trail_ops(), self.tape.tape.trail_ops());
                    lemma_seq_shape1(p0.tape.tape.past(), self.tape.tape.past());
                }
            }

            Instruction::TapeSeekMark { label } => {
                match self.tape.tape.seek_mark(label.as_str()) {
                    Ok(u) => u,
                    Err(e) => {
                        return Err(e);
                    }
                }
                proof {
                    lemma_seq_shape1(p0.tape.tape.trail_ops(), self.tape.tape.trail_ops());
                    lemma_seq_shape1(p0.tape.tape.past(), self.tape.tape.past());
                }
            }
            _ => {
                proof {
                    assert(false);
                }
                return Err(VmError::Halt);
            }
        }
        self.ip = self.ip.wrapping_add(1);
        Ok(())
    }

    #[verifier::rlimit(100)]
    fn step_branch(&mut self, inst: Instruction) -> (r: Result<(), VmError>)
        requires
            old(self).inv(),
            inst is Jump || inst is BranchZero || inst is BranchNotZero,
        ensures
            final(self).inv(),
            step_rel(*old(self), *final(self), inst, r),
    {
        self.save_history_frame(inst.clone());
        let ghost p0 = *old(self);
        match inst {

            Instruction::Jump { label } => {
                let t = match self.resolve_label(label.as_str()) {
                    Ok(t) => t,
                    Err(e) => {
                        return Err(e);
                    }
                };
                self.ip = t;
                return Ok(());
            }

            Instruction::BranchZero { reg, label } => {
                let v = match self.registers.read(reg) {
                    Ok(v) => v,
                    Err(e) => {
                        return Err(e);
                    }
                };
                if v == 0 {
                    let t = match self.resolve_label(label.as_str()) {
                        Ok(t) => t,
                        Err(e) => {
                            return Err(e);
                        }
                    };
                    self.ip = t;
                    return Ok(());
                }
            }

            Instruction::BranchNotZero { reg, label } => {
                let v = match self.registers.read(reg) {
                    Ok(v) => v,
                    Err(e) => {
                        return Err(e);
                    }
                };
                if v != 0 {
                    let t = match self.resolve_label(label.as_str()) {
                        Ok(t) => t,
                        Err(e) => {
                            return Err(e);
                        }
                    };
                    self.ip = t;
                    return Ok(());
                }
            }
            _ => {
                proof {
                    assert(false);
                }
                return Err(VmError::Halt);
            }
        }
        self.ip = self.ip.wrapping_add(1);
        Ok(())
    }

    #[verifier::rlimit(100)]
    fn step_call(&mut self, inst: Instruction) -> (r: Result<(), VmError>)
        requires
            old(self).inv(),
            inst is Call,
        ensures
            final(self).inv(),
            step_rel(*old(self), *final(self), inst, r),
    {
        self.save_history_frame(inst.clone());
        let ghost p0 = *old(self);
        match inst {

            Instruction::Call { label } => {
                let sp1 = self.sp.wrapping_sub(8);
                self.sp = sp1;
                self.tape.tape.seek(sp1);
                let ra = self.ip.wrapping_add(1);
                let rab = le_encode(ra);
                self.tape.tape.write(rab.as_slice());
                proof {
                    lemma_seq_shape2(p0.tape.tape.trail_ops(), self.tape.tape.trail_ops());
                    lemma_seq_shape2(p0.tape.tape.past(), self.tape.tape.past());
                }
                let sp2 = self.sp.wrapping_sub(8);
                self.sp = sp2;
                self.tape.tape.seek(sp2);
                let fpb = le_encode(self.fp);
                self.tape.tape.write(fpb.as_slice());
                self.fp = sp2;
                proof {
                    lemma_seq_shape4(p0.tape.tape.trail_ops(), self.tape.tape.trail_ops());
                    lemma_seq_shape4(p0.tape.tape.past(), self.tape.tape.past());
                }
                let t = match self.resolve_label(label.as_str()) {
                    Ok(t) => t,
                    Err(e) => {
                        return Err(e);
                    }
                };
                self.ip = t;
                return Ok(());
            }
            _ => {
                proof {
                    assert(false);
                }
                Err(VmError::Halt)
            }
        }
    }

    #[verifier::rlimit(100)]
    fn step_return(&mut self, inst: Instruction) -> (r: Result<(), VmError>)
        requires
            old(self).inv(),
            inst is Return,
        ensures
            final(self).inv(),
            step_rel(*old(self), *final(self), inst, r),
    {
        self.save_history_frame(inst.clone());
        let ghost p0 = *old(self);
        match inst {

            Instruction::Return => {
                let fp0 = self.fp;
                self.tape.tape.seek(fp0);
                let b1 = self.tape.tape.read(8);
                let fpv = le_decode(&b1);
                let sp1 = fp0.wrapping_add(8);
                self.tape.tape.seek(sp1);
                proof {
                    lemma_seq_shape2(p0.tape.tape.trail_ops(), self.tape.tape.trail_ops());
                    lemma_seq_shape2(p0.tape.tape.past(), self.tape.tape.past());
                }
                let b2 = self.tape.tape.read(8);
                let ipv = le_decode(&b2);
                self.fp = fpv;
                self.sp = sp1.wrapping_add(8);
                self.ip = ipv;
                return Ok(());
            }
            _ => {
                proof {
                    assert(false);
                }
                Err(VmError::Halt)
            }
        }
    }

    #[verifier::rlimit(100)]
    fn step_checkpoint(&mut self, inst: Instruction) -> (r: Result<(), VmError>)
        requires
            old(self).inv(),
            inst is Checkpoint,
        ensures
            final(self).inv(),
            step_rel(*old(self), *final(self), inst, r),
    {
        self.save_history_frame(inst.clone());
        let ghost p0 = *old(self);
        match inst {

            Instruction::Checkpoint { label } => {
                self.tape.tape.checkpoint(label.clone());
                let depth = self.history.stack.len();
                assoc_set(&mut self.history.checkpoints, label, depth);
            }
            _ => {
                proof {
                    assert(false);
                }
                return Err(VmError::Halt);
            }
        }
        self.ip = self.ip.wrapping_add(1);
        Ok(())
    }

    #[verifier::rlimit(100)]
    fn step_rewind(&mut self, inst: Instruction) -> (r: Result<(), VmError>)
        requires
            old(self).inv(),
            inst is Rewind,
        ensures
            final(self).inv(),
            step_rel(*old(self), *final(self), inst, r),
    {
        self.save_history_frame(inst.clone());
        let ghost p0 = *old(self);
        match inst {

            Instruction::Rewind { label } => {
                match self.tape.tape.rewind(label.as_str()) {
                    Ok(u) => u,
                    Err(e) => {
                        return Err(e);
                    }
                }
                match assoc_index(&self.history.checkpoints, label.as_str()) {
                    Some(ci) => {
                        proof {
                            lemma_assoc_at(self.history.checkpoints@, ci as int);
                        }
                        let d = self.history.checkpoints[ci].1;
                        if d < self.history.stack.len() {
                            self.history.stack.truncate(d);
                        }
                        let sl = self.history.stack.len();
                        if sl > 0 {
                            let regs = self.history.stack[sl - 1].registers_before;
                            let ipv = self.history.stack[sl - 1].ip_before;
                            let spv = self.history.stack[sl - 1].sp_before;
                            let fpv = self.history.stack[sl - 1].fp_before;
                            self.registers = regs;
                            self.ip = ipv.wrapping_add(1);
                            self.sp = spv;
                            self.fp = fpv;
                        }
                    }
                    None => {}
                }
                return Ok(());
            }
            _ => {
                proof {
                    assert(false);
                }
                Err(VmError::Halt)
            }
        }
    }

    #[verifier::rlimit(100)]
    fn step_rewind_n(&mut self, inst: Instruction) -> (r: Result<(), VmError>)
        requires
            old(self).inv(),
            inst is RewindN,
        ensures
            final(self).inv(),
            step_rel(*old(self), *final(self), inst, r),
    {
        self.save_history_frame(inst.clone());
        let ghost p0 = *old(self);
        match inst {

            Instruction::RewindN { steps } => {
                let n_raw = match self.registers.read(steps) {
                    Ok(v) => v,
                    Err(e) => {
                        return Err(e);
                    }
                };
                let depth = self.history.stack.len();
                let c: usize = if n_raw <= 0 {
                    0
                } else if n_raw as u64 <= depth as u64 {
                    n_raw as usize
                } else {
                    depth
                };
                let ghost p1 = *self;
                let ghost mut vs: Seq<VM> = seq![*self];
                let mut k: usize = 0;
                while k < c
                    invariant
                        c <= depth,
                        0 <= k <= c,
                        self.inv(),
                        self.history.stack@.len() == depth - k,
                        vs.len() == k + 1,
                        vs[0] == p1,
                        vs.last() == *self,
                        forall|i: int| 0 <= i < k ==> reverse_rel(#[trigger] vs[i], vs[i + 1]),
                    decreases c - k,
                {
                    let rr = self.reverse_last();
                    match rr {
                        Ok(u) => u,
                        Err(e) => {
                            proof {
                                assert(false);
                            }
                            return Err(e);
                        }
                    }
                    proof {
                        vs = vs.push(*self);
                    }
                    k += 1;
                }
                proof {
                    assert(frame_only(p0, vs[0], inst));
                    assert(vs[0].inv());
                    assert(vs[c as int] == *self);
                }
                return Ok(());
            }
            _ => {
                proof {
                    assert(false);
                }
                Err(VmError::Halt)
            }
        }
    }

    fn step_misc(&mut self, inst: Instruction) -> (r: Result<(), VmError>)
        requires
            old(self).inv(),
            !(inst is IAdd) && !(inst is ISub) && !(inst is IMul) && !(inst is IXor) && !(inst is Compare) && !(inst is Equal) && !(inst is LessThan) && !(inst is LoadImm) && !(inst is Load) && !(inst is Store) && !(inst is Pop) && !(inst is Push) && !(inst is TapeRead) && !(inst is TapeWrite) && !(inst is TapeSeek) && !(inst is TapeSeekReg) && !(inst is TapeAdvance) && !(inst is TapeMark) && !(inst is TapeSeekMark) && !(inst is Jump) && !(inst is BranchZero) && !(inst is BranchNotZero) && !(inst is Call) && !(inst is Return) && !(inst is Checkpoint) && !(inst is Rewind) && !(inst is RewindN),
        ensures
            final(self).inv(),
            step_rel(*old(self), *final(self), inst, r),
    {
        self.save_history_frame(inst.clone());
        let ghost p0 = *old(self);
        match inst {

            Instruction::Halt => {
                return Err(VmError::Halt);
            }

            Instruction::Nop => {}

            Instruction::Debug { message } => {
                self.debug_log.push(message);
            }
            _ => {
                return Err(VmError::UnimplementedInstruction);
            }
        }
        self.ip = self.ip.wrapping_add(1);
        Ok(())
    }

    /// Reverse the last executed instruction: pop its frame, restore the
    /// register file and the three pointers, and rewind the journal to
    /// the frame's recorded length.  Fails, changing nothing, when the
    /// history is empty.
    pub fn reverse_last(&mut self) -> (r: Result<(), VmError>)
        requires
            old(self).inv(),
        ensures
            final(self).inv(),
            old(self).history.stack@.len() == 0 ==> r == Err::<(), VmError>(
                VmError::HistoryExhausted,
            ) && *final(self) == *old(self),
            old(self).history.stack@.len() > 0 ==> r == Ok::<(), VmError>(()) && reverse_rel(
                *old(self),
                *final(self),
            ),
    {
        let depth = self.history.stack.len();
        if depth == 0 {
            return Err(VmError::HistoryExhausted);
        }
        let frame = self.history.stack.pop().unwrap();
        self.registers = frame.registers_before;
        self.ip = frame.ip_before;
        self.sp = frame.sp_before;
        self.fp = frame.fp_before;
        let cur = self.tape.tape.trail_len();
        let delta = if frame.tape_trail_len <= cur {
            cur - frame.tape_trail_len
        } else {
            0
        };
        self.tape.tape.rewind_n(delta);
        proof {
            assert(self.history.stack@ =~= old(self).history.stack@.drop_last());
        }
        Ok(())
    }
}

} // verus!
