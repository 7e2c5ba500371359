//! The machine's laws, proved from the transition relation `step_rel`
//! and the reversal relation `reverse_rel` alone.

use vstd::prelude::*;
use vstd::wrapping::i64_specs;

use crate::errors::VmError;
use crate::instruction::Instruction;
use crate::registers::Register;
use crate::tape::lemma_read_back;
use crate::tape::lemma_read_unwritten;
use crate::tape::lemma_wrap_exact;
use crate::tape::read_seq;
use crate::tape::wrap_pos;
use crate::tape::write_seq;
use crate::tape::Tape;
use crate::vm::frame_of;
use crate::vm::keeps_env;
use crate::vm::rd;
use crate::vm::reverse_rel;
use crate::vm::step_rel;
use crate::vm::vm_cps;
use crate::vm::VM;
use crate::word::le_i64;
use crate::word::le_of;
use crate::word::lemma_le_roundtrip;

verus! {

/// Two machines that agree on everything reversal restores: registers,
/// pointers, history stack, tape state, journal, and the environment.
/// Checkpoint names and the diagnostic log are deliberately not included:
/// reversal does not unrecord them.
pub open spec fn matches_state(a: VM, b: VM) -> bool {
    &&& a.registers == b.registers
    &&& a.ip == b.ip
    &&& a.sp == b.sp
    &&& a.fp == b.fp
    &&& a.history.stack@ == b.history.stack@
    &&& a.tape.tape@ == b.tape.tape@
    &&& a.tape.tape.trail_ops() == b.tape.tape.trail_ops()
    &&& a.tape.tape.past() == b.tape.tape.past()
    &&& a.tape.tape.marks_ok() == b.tape.tape.marks_ok()
    &&& a.tape.seg_list() == b.tape.seg_list()
    &&& a.symbols == b.symbols
    &&& a.timelines == b.timelines
    &&& a.current_timeline == b.current_timeline
}

/// Journal monotonicity, forward: no successful instruction other than
/// the two rewind forms ever shrinks the trail — it extends it, keeping
/// every earlier entry and snapshot; and it pushes exactly one frame.
#[verifier::rlimit(100)]
#[verifier::spinoff_prover]
pub proof fn lemma_step_effects(p: VM, q: VM, inst: Instruction)
    requires
        step_rel(p, q, inst, Ok::<(), VmError>(())),
        p.inv(),
        q.inv(),
        !(inst is Rewind),
        !(inst is RewindN),
    ensures
        q.history.stack@ == p.history.stack@.push(frame_of(p, inst)),
        q.tape.tape.trail_ops().len() >= p.tape.tape.trail_ops().len(),
        q.tape.tape.trail_ops().take(p.tape.tape.trail_ops().len() as int)
            == p.tape.tape.trail_ops(),
        q.tape.tape.past().len() == q.tape.tape.trail_ops().len() + 1,
        p.tape.tape.past().len() == p.tape.tape.trail_ops().len() + 1,
        q.tape.tape.past().take(p.tape.tape.past().len() as int) == p.tape.tape.past(),
        q.tape.tape.marks_ok() ==> p.tape.tape.marks_ok(),
        p.tape.tape.marks_ok() && !(inst is TapeMark) ==> q.tape.tape.marks_ok(),
        !(inst is Checkpoint) ==> q.history.checkpoints == p.history.checkpoints
            && q.tape.tape.cp_map() == p.tape.tape.cp_map(),
        keeps_env(p, q),
{
    p.tape.tape.lemma_inv();
    q.tape.tape.lemma_inv();
    let pt = p.tape.tape.trail_ops();
    let qt = q.tape.tape.trail_ops();
    let pp = p.tape.tape.past();
    let qp = q.tape.tape.past();
    match inst {
        Instruction::Load { reg, addr } => {
            assert(qt.take(pt.len() as int) =~= pt);
            assert(qp.take(pp.len() as int) =~= pp);
        }
        Instruction::Store { addr, reg } => {
            assert(qt.take(pt.len() as int) =~= pt);
            assert(qp.take(pp.len() as int) =~= pp);
        }
        Instruction::Push { reg } => {
            assert(qt.take(pt.len() as int) =~= pt);
            assert(qp.take(pp.len() as int) =~= pp);
        }
        Instruction::Pop { reg } => {
            assert(qt.take(pt.len() as int) =~= pt);
            assert(qp.take(pp.len() as int) =~= pp);
        }
        Instruction::TapeWrite { reg, len } => {
            assert(qt.take(pt.len() as int) =~= pt);
            assert(qp.take(pp.len() as int) =~= pp);
        }
        Instruction::TapeSeek { position } => {
            assert(qt.take(pt.len() as int) =~= pt);
            assert(qp.take(pp.len() as int) =~= pp);
        }
        Instruction::TapeSeekReg { reg } => {
            assert(qt.take(pt.len() as int) =~= pt);
            assert(qp.take(pp.len() as int) =~= pp);
        }
        Instruction::TapeAdvance { delta } => {
            assert(qt.take(pt.len() as int) =~= pt);
            assert(qp.take(pp.len() as int) =~= pp);
        }
        Instruction::TapeMark { label } => {
            assert(qt.take(pt.len() as int) =~= pt);
            assert(qp.take(pp.len() as int) =~= pp);
        }
        Instruction::TapeSeekMark { label } => {
            assert(qt.take(pt.len() as int) =~= pt);
            assert(qp.take(pp.len() as int) =~= pp);
        }
        Instruction::Call { label } => {
            assert(qt.take(pt.len() as int) =~= pt);
            assert(qp.take(pp.len() as int) =~= pp);
        }
        Instruction::Return => {
            assert(qt.take(pt.len() as int) =~= pt);
            assert(qp.take(pp.len() as int) =~= pp);
        }
        _ => {
            assert(qt.take(pt.len() as int) =~= pt);
            assert(qp.take(pp.len() as int) =~= pp);
        }
    }
}

/// Journal monotonicity, backward: a reversal never grows the trail.
pub proof fn lemma_reverse_never_grows(p: VM, q: VM)
    requires
        reverse_rel(p, q),
    ensures
        q.tape.tape.trail_ops().len() <= p.tape.tape.trail_ops().len(),
{
}

/// Push/pop duality: loading a value, pushing it, clobbering the
/// register and popping restores the value, and the stack pointer ends
/// where it began.
pub proof fn lemma_push_pop_duality(v0: VM, v1: VM, v2: VM, v3: VM, v4: VM, r: Register, value: i64)
    requires
        v0.inv(),
        v1.inv(),
        v2.inv(),
        v3.inv(),
        v4.inv(),
        r < 16,
        step_rel(v0, v1, (Instruction::LoadImm { reg: r, value }), Ok::<(), VmError>(())),
        step_rel(v1, v2, (Instruction::Push { reg: r }), Ok::<(), VmError>(())),
        step_rel(v2, v3, (Instruction::LoadImm { reg: r, value: 0 }), Ok::<(), VmError>(())),
        step_rel(v3, v4, (Instruction::Pop { reg: r }), Ok::<(), VmError>(())),
    ensures
        rd(v4, r) == value,
        v4.sp == v0.sp,
{
    let sp1 = i64_specs::wrapping_sub(v1.sp, 8);
    assert(rd(v1, r) == value);
    lemma_read_back(v1.tape.tape@.bytes, sp1 as int, le_of(value));
    lemma_le_roundtrip(value);
    assert(v3.tape.tape@.bytes == v2.tape.tape@.bytes);
    assert(v3.sp == sp1);
    assert(rd(v4, r) == le_i64(read_seq(v3.tape.tape@.bytes, sp1 as int, 8)));
    assert(v4.sp == i64_specs::wrapping_add(sp1, 8));
    assert(i64_specs::wrapping_add(i64_specs::wrapping_sub(v0.sp, 8), 8) == v0.sp);
}

/// Exclusive-or undoes itself: running `IXor dst, src1, src2` twice with
/// the destination being exactly one of the sources leaves the
/// destination as it began.  (With the destination equal to both or to
/// neither source the pair is not an involution: `IXor R0, R0, R0` twice
/// zeroes a non-zero R0, and with a fresh destination the pair just
/// computes the same value twice.)
pub proof fn lemma_xor_self_inverse(
    v0: VM,
    v1: VM,
    v2: VM,
    dst: Register,
    src1: Register,
    src2: Register,
)
    requires
        v0.inv(),
        v1.inv(),
        v2.inv(),
        (dst == src1) != (dst == src2),
        step_rel(v0, v1, (Instruction::IXor { dst, src1, src2 }), Ok::<(), VmError>(())),
        step_rel(v1, v2, (Instruction::IXor { dst, src1, src2 }), Ok::<(), VmError>(())),
    ensures
        rd(v2, dst) == rd(v0, dst),
{
    if dst == src1 {
        let x = rd(v0, dst);
        let y = rd(v0, src2);
        assert(rd(v1, dst) == x ^ y);
        assert(rd(v1, src2) == y);
        assert(rd(v2, dst) == (x ^ y) ^ y);
        assert((x ^ y) ^ y == x) by (bit_vector);
    } else {
        let x = rd(v0, src1);
        let y = rd(v0, dst);
        assert(rd(v1, dst) == x ^ y);
        assert(rd(v1, src1) == x);
        assert(rd(v2, dst) == x ^ (x ^ y));
        assert(x ^ (x ^ y) == y) by (bit_vector);
    }
}

/// Call/return duality: entering a routine with `Call` and returning as
/// its first instruction restores the stack and frame pointers and
/// continues at the instruction after the call, with the registers
/// untouched.
pub proof fn lemma_call_return_duality(v0: VM, v1: VM, v2: VM, call_inst: Instruction)
    requires
        v0.inv(),
        v1.inv(),
        v2.inv(),
        call_inst is Call,
        step_rel(v0, v1, call_inst, Ok::<(), VmError>(())),
        step_rel(v1, v2, Instruction::Return, Ok::<(), VmError>(())),
    ensures
        v2.ip == i64_specs::wrapping_add(v0.ip, 1),
        v2.sp == v0.sp,
        v2.fp == v0.fp,
        v2.registers == v0.registers,
{
    let bytes0 = v0.tape.tape@.bytes;
    let sp1 = i64_specs::wrapping_sub(v0.sp, 8);
    let sp2 = i64_specs::wrapping_sub(sp1, 8);
    let ra = i64_specs::wrapping_add(v0.ip, 1);
    let bytes1 = write_seq(bytes0, sp1 as int, le_of(ra));
    let bytes2 = write_seq(bytes1, sp2 as int, le_of(v0.fp));
    if let Instruction::Call { label } = call_inst {
        assert(v1.tape.tape@.bytes == bytes2);
        assert(v1.sp == sp2 && v1.fp == sp2);
        // the word at the frame pointer is the saved frame pointer
        lemma_read_back(bytes1, sp2 as int, le_of(v0.fp));
        lemma_le_roundtrip(v0.fp);
        let rsp1 = i64_specs::wrapping_add(v1.fp, 8);
        assert(v2.fp == le_i64(read_seq(bytes2, v1.fp as int, 8)));
        assert(v2.fp == v0.fp);
        // the word above it is the return address, untouched by the
        // second push, which sits eight bytes below
        assert(rsp1 == sp1) by {
            assert(i64_specs::wrapping_add(i64_specs::wrapping_sub(sp1, 8), 8) == sp1);
        }
        assert forall|i: int| 0 <= i < 8 implies #[trigger] crate::tape::wdiff(
            wrap_pos(sp1 as int + i),
            sp2 as int,
        ) >= le_of(v0.fp).len() by {
            lemma_wrap_exact(sp2 as int, 8 + i);
            assert(wrap_pos(sp1 as int + i) == wrap_pos(sp2 as int + (8 + i)));
            crate::tape::lemma_wdiff_char(
                wrap_pos(sp2 as int + (8 + i)),
                sp2 as int,
                8 + i,
            );
        }
        lemma_read_unwritten(bytes1, sp2 as int, le_of(v0.fp), sp1 as int, 8);
        lemma_read_back(bytes0, sp1 as int, le_of(ra));
        lemma_le_roundtrip(ra);
        assert(v2.ip == le_i64(read_seq(bytes2, rsp1 as int, 8)));
        assert(v2.ip == ra);
        assert(v2.sp == i64_specs::wrapping_add(rsp1, 8));
        assert(i64_specs::wrapping_add(i64_specs::wrapping_sub(v0.sp, 8), 8) == v0.sp);
    }
}

/// One reversal undoes one forward step: if `b` was reached from `c` by
/// a successful non-rewind instruction, and `a` agrees with `b` on
/// everything reversal restores, then reversing `a` lands on a state
/// that so agrees with `c`.
proof fn lemma_reverse_step(c: VM, b: VM, a: VM, a2: VM, inst: Instruction)
    requires
        c.inv(),
        b.inv(),
        a.inv(),
        a2.inv(),
        !(inst is Rewind),
        !(inst is RewindN),
        step_rel(c, b, inst, Ok::<(), VmError>(())),
        matches_state(a, b),
        a.tape.tape.marks_ok(),
        reverse_rel(a, a2),
    ensures
        matches_state(a2, c),
        a2.tape.tape.marks_ok(),
{
    lemma_step_effects(c, b, inst);
    c.tape.tape.lemma_inv();
    b.tape.tape.lemma_inv();
    a.tape.tape.lemma_inv();
    let fr = a.history.stack@.last();
    assert(a.history.stack@ == c.history.stack@.push(frame_of(c, inst)));
    assert(fr == frame_of(c, inst));
    let ttl = c.tape.tape.trail_ops().len() as int;
    let cur = a.tape.tape.trail_ops().len() as int;
    assert(fr.tape_trail_len == ttl);
    assert(cur >= ttl);
    assert(a2.registers == c.registers && a2.ip == c.ip && a2.sp == c.sp && a2.fp == c.fp);
    assert(a2.history.stack@ =~= c.history.stack@);
    assert(a2.tape.tape.trail_ops() == a.tape.tape.trail_ops().take(ttl));
    assert(a.tape.tape.trail_ops().take(ttl) == c.tape.tape.trail_ops());
    assert(a2.tape.tape@ == a.tape.tape.past()[ttl]);
    assert(a.tape.tape.past().take(c.tape.tape.past().len() as int) == c.tape.tape.past());
    assert(a.tape.tape.past()[ttl] == c.tape.tape.past()[ttl]);
    assert(c.tape.tape.past()[ttl] == c.tape.tape.past().last());
    assert(a2.tape.tape@ == c.tape.tape@);
    assert(a2.tape.tape.past() == a.tape.tape.past().take(ttl + 1).update(ttl, a2.tape.tape@));
    assert(a.tape.tape.past().take(ttl + 1) =~= c.tape.tape.past());
    assert(a2.tape.tape.past() =~= c.tape.tape.past());
}

/// Reversibility: executing any successfully completed sequence of
/// instructions — rewinds aside, which are themselves reversals — and
/// then reversing as many times restores the registers, the three
/// pointers, the history, every tape byte, the head, the marks and the
/// whole journal to their initial state.  The condition on mark tracking
/// excludes runs that re-marked an existing label: undoing such an entry
/// erases the label instead of restoring its old position.
pub proof fn lemma_reversibility(fwd: Seq<VM>, insts: Seq<Instruction>, rev: Seq<VM>)
    requires
        fwd.len() == insts.len() + 1,
        rev.len() == insts.len() + 1,
        forall|i: int| 0 <= i < fwd.len() ==> (#[trigger] fwd[i]).inv(),
        forall|i: int| 0 <= i < rev.len() ==> (#[trigger] rev[i]).inv(),
        forall|i: int| 0 <= i < insts.len() ==> step_rel(
            fwd[i],
            fwd[i + 1],
            #[trigger] insts[i],
            Ok::<(), VmError>(()),
        ),
        forall|i: int| 0 <= i < insts.len() ==> !((#[trigger] insts[i]) is Rewind) && !(insts[i]
            is RewindN),
        matches_state(rev[0], fwd.last()),
        rev[0].tape.tape.marks_ok(),
        forall|i: int| 0 <= i < insts.len() ==> reverse_rel(#[trigger] rev[i], rev[i + 1]),
    ensures
        matches_state(rev.last(), fwd[0]),
        rev.last().tape.tape.marks_ok(),
    decreases insts.len(),
{
    let n = insts.len() as int;
    if n == 0 {
        assert(rev.last() == rev[0] && fwd[0] == fwd.last());
    } else {
        lemma_reverse_step(fwd[n - 1], fwd[n], rev[0], rev[1], insts[n - 1]);
        let fwd2 = fwd.take(n);
        let insts2 = insts.take(n - 1);
        let rev2 = rev.skip(1);
        assert(fwd2.len() == n && insts2.len() == n - 1 && rev2.len() == n);
        assert(forall|i: int| 0 <= i < fwd2.len() ==> fwd2[i] == fwd[i]);
        assert(forall|i: int| 0 <= i < insts2.len() ==> insts2[i] == insts[i]);
        assert(forall|i: int| 0 <= i < rev2.len() ==> rev2[i] == rev[i + 1]);
        assert(forall|i: int| 0 <= i < insts2.len() ==> step_rel(
            fwd2[i],
            fwd2[i + 1],
            #[trigger] insts2[i],
            Ok::<(), VmError>(()),
        ));
        assert(forall|i: int| 0 <= i < insts2.len() ==> reverse_rel(
            #[trigger] rev2[i],
            rev2[i + 1],
        ));
        assert(matches_state(rev2[0], fwd2.last()));
        lemma_reversibility(fwd2, insts2, rev2);
        assert(rev2.last() == rev.last() && fwd2[0] == fwd[0]);
    }
}

/// A run of successful non-rewind instructions only extends the journal,
/// the snapshots and the history, keeps the environment, and preserves a
/// checkpoint name none of them re-records.
proof fn lemma_chain_keeps(ms: Seq<VM>, mi: Seq<Instruction>, lbl: Seq<char>)
    requires
        ms.len() == mi.len() + 1,
        forall|i: int| 0 <= i < ms.len() ==> (#[trigger] ms[i]).inv(),
        forall|i: int| 0 <= i < mi.len() ==> step_rel(
            ms[i],
            ms[i + 1],
            #[trigger] mi[i],
            Ok::<(), VmError>(()),
        ),
        forall|i: int| 0 <= i < mi.len() ==> !((#[trigger] mi[i]) is Rewind) && !(mi[i]
            is RewindN),
        forall|i: int| 0 <= i < mi.len() ==> ((#[trigger] mi[i]) matches Instruction::Checkpoint {
            label,
        } ==> label@ != lbl),
    ensures
        ms.last().tape.tape.trail_ops().len() >= ms[0].tape.tape.trail_ops().len(),
        ms.last().tape.tape.trail_ops().take(ms[0].tape.tape.trail_ops().len() as int)
            == ms[0].tape.tape.trail_ops(),
        ms.last().tape.tape.past().take(ms[0].tape.tape.past().len() as int)
            == ms[0].tape.tape.past(),
        ms[0].tape.tape.past().len() == ms[0].tape.tape.trail_ops().len() + 1,
        ms.last().history.stack@.len() >= ms[0].history.stack@.len(),
        ms.last().history.stack@.take(ms[0].history.stack@.len() as int)
            == ms[0].history.stack@,
        ms.last().tape.tape.cp_map().dom().contains(lbl) == ms[0].tape.tape.cp_map().dom()
            .contains(lbl),
        ms[0].tape.tape.cp_map().dom().contains(lbl) ==> ms.last().tape.tape.cp_map()[lbl]
            == ms[0].tape.tape.cp_map()[lbl],
        vm_cps(ms.last()).dom().contains(lbl) == vm_cps(ms[0]).dom().contains(lbl),
        vm_cps(ms[0]).dom().contains(lbl) ==> vm_cps(ms.last())[lbl] == vm_cps(ms[0])[lbl],
        ms.last().tape.tape.marks_ok() ==> ms[0].tape.tape.marks_ok(),
        keeps_env(ms[0], ms.last()),
    decreases mi.len(),
{
    ms[0].tape.tape.lemma_inv();
    if mi.len() == 0 {
        let f = ms[0];
        assert(f.tape.tape.trail_ops().take(f.tape.tape.trail_ops().len() as int)
            =~= f.tape.tape.trail_ops());
        assert(f.tape.tape.past().take(f.tape.tape.past().len() as int) =~= f.tape.tape.past());
        assert(f.history.stack@.take(f.history.stack@.len() as int) =~= f.history.stack@);
    } else {
        lemma_step_effects(ms[0], ms[1], mi[0]);
        if mi[0] is Checkpoint {
            assert(ms[1].tape.tape.cp_map().dom().contains(lbl) == ms[0].tape.tape.cp_map().dom()
                .contains(lbl) && (ms[0].tape.tape.cp_map().dom().contains(lbl)
                ==> ms[1].tape.tape.cp_map()[lbl] == ms[0].tape.tape.cp_map()[lbl]));
            assert(vm_cps(ms[1]).dom().contains(lbl) == vm_cps(ms[0]).dom().contains(lbl) && (
            vm_cps(ms[0]).dom().contains(lbl) ==> vm_cps(ms[1])[lbl] == vm_cps(ms[0])[lbl]));
        }
        let ms2 = ms.skip(1);
        let mi2 = mi.skip(1);
        assert(forall|i: int| 0 <= i < ms2.len() ==> ms2[i] == ms[i + 1]);
        assert(forall|i: int| 0 <= i < mi2.len() ==> mi2[i] == mi[i + 1]);
        assert(forall|i: int| 0 <= i < mi2.len() ==> step_rel(
            ms2[i],
            ms2[i + 1],
            #[trigger] mi2[i],
            Ok::<(), VmError>(()),
        ));
        assert(forall|i: int| 0 <= i < mi2.len() ==> ((#[trigger] mi2[i])
            matches Instruction::Checkpoint { label } ==> label@ != lbl));
        lemma_chain_keeps(ms2, mi2, lbl);
        assert(ms2.last() == ms.last() && ms2[0] == ms[1]);
        let f = ms[0];
        let m = ms[1];
        let l = ms.last();
        m.tape.tape.lemma_inv();
        l.tape.tape.lemma_inv();
        assert(l.tape.tape.past().len() >= m.tape.tape.past().len());
        assert(m.tape.tape.past().len() >= f.tape.tape.past().len());
        assert(l.tape.tape.trail_ops().take(f.tape.tape.trail_ops().len() as int)
            =~= f.tape.tape.trail_ops()) by {
            assert(forall|j: int| 0 <= j < m.tape.tape.trail_ops().len()
                ==> l.tape.tape.trail_ops()[j] == m.tape.tape.trail_ops()[j]);
            assert(forall|j: int| 0 <= j < f.tape.tape.trail_ops().len()
                ==> m.tape.tape.trail_ops()[j] == f.tape.tape.trail_ops()[j]);
        }
        assert(l.tape.tape.past().take(f.tape.tape.past().len() as int) =~= f.tape.tape.past())
            by {
            assert(forall|j: int| 0 <= j < m.tape.tape.past().len() ==> l.tape.tape.past()[j]
                == m.tape.tape.past()[j]);
            assert(forall|j: int| 0 <= j < f.tape.tape.past().len() ==> m.tape.tape.past()[j]
                == f.tape.tape.past()[j]);
        }
        assert(l.history.stack@.take(f.history.stack@.len() as int) =~= f.history.stack@) by {
            assert(forall|j: int| 0 <= j < m.history.stack@.len() ==> l.history.stack@[j]
                == m.history.stack@[j]);
            assert(forall|j: int| 0 <= j < f.history.stack@.len() ==> m.history.stack@[j]
                == f.history.stack@[j]);
        }
    }
}

/// Checkpoint round trip: after `Checkpoint c`, any successful run of
/// non-rewind instructions that does not re-record `c`, followed by
/// `Rewind c`, returns the registers, the pointers — the instruction
/// pointer included — the whole tape, the journal and the history to
/// their values right after the checkpoint was recorded.
pub proof fn lemma_checkpoint_rewind(
    s0: VM,
    ms: Seq<VM>,
    mi: Seq<Instruction>,
    s3: VM,
    cp_label: String,
    rw_label: String,
)
    requires
        s0.inv(),
        s3.inv(),
        s0.history.stack@.len() < usize::MAX,
        ms.len() == mi.len() + 1,
        forall|i: int| 0 <= i < ms.len() ==> (#[trigger] ms[i]).inv(),
        cp_label@ == rw_label@,
        step_rel(s0, ms[0], (Instruction::Checkpoint { label: cp_label }), Ok::<(), VmError>(())),
        forall|i: int| 0 <= i < mi.len() ==> step_rel(
            ms[i],
            ms[i + 1],
            #[trigger] mi[i],
            Ok::<(), VmError>(()),
        ),
        forall|i: int| 0 <= i < mi.len() ==> !((#[trigger] mi[i]) is Rewind) && !(mi[i]
            is RewindN),
        forall|i: int| 0 <= i < mi.len() ==> ((#[trigger] mi[i]) matches Instruction::Checkpoint {
            label,
        } ==> label@ != cp_label@),
        ms.last().tape.tape.marks_ok(),
        step_rel(ms.last(), s3, (Instruction::Rewind { label: rw_label }), Ok::<(), VmError>(())),
    ensures
        s3.registers == ms[0].registers,
        s3.ip == ms[0].ip,
        s3.sp == ms[0].sp,
        s3.fp == ms[0].fp,
        s3.tape.tape@ == ms[0].tape.tape@,
        s3.tape.tape.trail_ops() == ms[0].tape.tape.trail_ops(),
        s3.history.stack@ == ms[0].history.stack@,
{
    let s1 = ms[0];
    let s2 = ms.last();
    let lbl = cp_label@;
    s0.tape.tape.lemma_inv();
    s1.tape.tape.lemma_inv();
    s2.tape.tape.lemma_inv();
    lemma_step_effects(s0, s1, Instruction::Checkpoint { label: cp_label });
    let cl = s0.tape.tape.trail_ops().len() as int;
    assert(s1.tape.tape.cp_map() == s0.tape.tape.cp_map().insert(lbl, cl as usize));
    assert(s1.tape.tape.cp_map()[lbl] == cl as usize);
    let d = (s0.history.stack@.len() + 1) as usize;
    assert(vm_cps(s1) == vm_cps(s0).insert(lbl, d));
    assert(vm_cps(s1).dom().contains(lbl));
    assert(vm_cps(s1)[lbl] == d);
    assert(s1.history.stack@.len() == d);
    lemma_chain_keeps(ms, mi, lbl);
    assert(s2.tape.tape.cp_map().dom().contains(lbl) && s2.tape.tape.cp_map()[lbl]
        == cl as usize);
    assert(vm_cps(s2).dom().contains(lbl) && vm_cps(s2)[lbl] == d);
    // the rewind's target length is exactly the checkpointed length
    assert(s1.tape.tape.trail_ops() == s0.tape.tape.trail_ops());
    assert(s2.tape.tape.trail_ops().len() >= cl);
    let t = Tape::keep_to(s2.tape.tape.trail_ops().len(), cl as nat);
    assert(t == cl);
    assert(s3.tape.tape.trail_ops() == s2.tape.tape.trail_ops().take(cl));
    assert(s2.tape.tape.trail_ops().take(cl) == s1.tape.tape.trail_ops());
    // the tape state comes back exactly: mark tracking holds at the end
    assert(s3.tape.tape@ == s2.tape.tape.past()[t]);
    assert(s1.tape.tape.past().len() == cl + 1);
    assert(s2.tape.tape.past().take(cl + 1) == s1.tape.tape.past());
    assert(s2.tape.tape.past()[cl] == s1.tape.tape.past()[cl]);
    assert(s1.tape.tape.past()[cl] == s1.tape.tape.past().last());
    assert(s3.tape.tape@ == s1.tape.tape@);
    // the history returns to the frame the checkpoint pushed
    let fr = frame_of(s2, Instruction::Rewind { label: rw_label });
    let stack1 = s2.history.stack@.push(fr);
    assert(vm_cps(s2)[lbl] < stack1.len());
    assert(s3.history.stack@ == stack1.take(d as int));
    assert(stack1.take(d as int) =~= s2.history.stack@.take(d as int));
    assert(s2.history.stack@.take(d as int) == s1.history.stack@);
    assert(s3.history.stack@.len() >= 1);
    assert(s3.history.stack@.last() == s1.history.stack@.last());
    assert(s1.history.stack@ == s0.history.stack@.push(
        frame_of(s0, Instruction::Checkpoint { label: cp_label }),
    ));
    assert(s1.history.stack@.last() == frame_of(s0, Instruction::Checkpoint { label: cp_label }));
}

} // verus!
