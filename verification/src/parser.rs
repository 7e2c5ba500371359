//! The assembly parser.
//!
//! Line-oriented: comments run from `;` to the end of the line, blank
//! lines are skipped, a trimmed line ending in `:` defines a label at the
//! current instruction index, and anything else is `MNEMONIC op op op`
//! with whitespace-separated operands.  A trailing comma on an operand is
//! permitted.  Mnemonics are case-insensitive; registers are `R0`..`R15`;
//! immediates take an optional `#`, a sign, and decimal or `0x` hex
//! digits, signed 64-bit.

use vstd::prelude::*;
use vstd::string::StrSliceExecFns;

use crate::instruction::Instruction;
use crate::names::assoc_map;
use crate::names::assoc_set;
use crate::names::keys_unique;
use crate::registers::Register;

verus! {

/// Appending a character to a string appends it to the view.  Relies on
/// `String::push` from std: it appends the given character to the end of
/// the string.
pub assume_specification[ std::string::String::push ](s: &mut std::string::String, c: char)
    ensures
        final(s)@ == old(s)@.push(c),
;

/// The whitespace the parser strips: spaces, tabs and carriage returns.
pub open spec fn is_ws(c: char) -> bool {
    c == ' ' || c == '\t' || c == '\r'
}

/// The source split at newlines, scanning with an accumulator.
pub open spec fn line_scan(s: Seq<char>, cur: Seq<char>) -> Seq<Seq<char>>
    decreases s.len(),
{
    if s.len() == 0 {
        seq![cur]
    } else if s[0] == '\n' {
        seq![cur] + line_scan(s.skip(1), Seq::empty())
    } else {
        line_scan(s.skip(1), cur.push(s[0]))
    }
}

/// The source's lines.
pub open spec fn split_lines(s: Seq<char>) -> Seq<Seq<char>> {
    line_scan(s, Seq::empty())
}

/// A line with its comment removed: everything before the first `;`.
pub open spec fn strip_comment(s: Seq<char>) -> Seq<char>
    decreases s.len(),
{
    if s.len() == 0 {
        Seq::empty()
    } else if s[0] == ';' {
        Seq::empty()
    } else {
        seq![s[0]] + strip_comment(s.skip(1))
    }
}

/// Leading whitespace removed.
pub open spec fn trim_front(s: Seq<char>) -> Seq<char>
    decreases s.len(),
{
    if s.len() > 0 && is_ws(s[0]) {
        trim_front(s.skip(1))
    } else {
        s
    }
}

/// Trailing whitespace removed.
pub open spec fn trim_back(s: Seq<char>) -> Seq<char>
    decreases s.len(),
{
    if s.len() > 0 && is_ws(s.last()) {
        trim_back(s.drop_last())
    } else {
        s
    }
}

/// The line as the parser sees it: comment stripped, then trimmed.
pub open spec fn clean_line(s: Seq<char>) -> Seq<char> {
    trim_back(trim_front(strip_comment(s)))
}

/// A cleaned line that defines nothing and encodes nothing.
pub open spec fn is_blank(s: Seq<char>) -> bool {
    clean_line(s).len() == 0
}

/// A cleaned line ending in `:` defines a label.
pub open spec fn is_label_line(s: Seq<char>) -> bool {
    !is_blank(s) && clean_line(s).last() == ':'
}

/// The label a label line defines: the cleaned line with every trailing
/// colon removed.
pub open spec fn strip_colons(s: Seq<char>) -> Seq<char>
    decreases s.len(),
{
    if s.len() > 0 && s.last() == ':' {
        strip_colons(s.drop_last())
    } else {
        s
    }
}

/// The label a label line defines.
pub open spec fn label_of(s: Seq<char>) -> Seq<char> {
    strip_colons(clean_line(s))
}

/// The whitespace-separated tokens of a cleaned line, scanning with an
/// accumulator for the token in progress.
pub open spec fn tok_scan(s: Seq<char>, cur: Seq<char>) -> Seq<Seq<char>>
    decreases s.len(),
{
    if s.len() == 0 {
        if cur.len() == 0 {
            Seq::empty()
        } else {
            seq![cur]
        }
    } else if is_ws(s[0]) {
        if cur.len() == 0 {
            tok_scan(s.skip(1), Seq::empty())
        } else {
            seq![cur] + tok_scan(s.skip(1), Seq::empty())
        }
    } else {
        tok_scan(s.skip(1), cur.push(s[0]))
    }
}

/// The tokens of a line.
pub open spec fn tokens_of(s: Seq<char>) -> Seq<Seq<char>> {
    tok_scan(clean_line(s), Seq::empty())
}

/// A character folded to upper case, as a code point.
pub open spec fn upper_u(c: char) -> int {
    if 97 <= c as u32 <= 122 {
        c as u32 - 32
    } else {
        c as u32 as int
    }
}

/// Case-insensitive equality of two character sequences.
pub open spec fn eq_ci(a: Seq<char>, b: Seq<char>) -> bool {
    a.len() == b.len() && forall|i: int| 0 <= i < a.len() ==> upper_u(a[i]) == upper_u(b[i])
}

/// An operand with its trailing commas removed.
pub open spec fn strip_commas(s: Seq<char>) -> Seq<char>
    decreases s.len(),
{
    if s.len() > 0 && s.last() == ',' {
        strip_commas(s.drop_last())
    } else {
        s
    }
}

/// An operand with its leading `#` markers removed (after the commas).
pub open spec fn strip_hashes(s: Seq<char>) -> Seq<char>
    decreases s.len(),
{
    if s.len() > 0 && s[0] == '#' {
        strip_hashes(s.skip(1))
    } else {
        s
    }
}

/// The value of a hexadecimal digit, or 16 when it is none.
pub open spec fn hex_val(c: char) -> int {
    if 48 <= c as u32 <= 57 {
        c as u32 - 48
    } else if 97 <= c as u32 <= 102 {
        c as u32 - 87
    } else if 65 <= c as u32 <= 70 {
        c as u32 - 55
    } else {
        16
    }
}

/// The value of a digit string in the given base, scanned left to right.
pub open spec fn digits_val(s: Seq<char>, base: int, acc: int) -> int
    decreases s.len(),
{
    if s.len() == 0 {
        acc
    } else {
        digits_val(s.skip(1), base, acc * base + hex_val(s[0]))
    }
}

/// Whether every character is a digit of the given base (10 or 16).
pub open spec fn all_digits(s: Seq<char>, base: int) -> bool {
    s.len() > 0 && forall|i: int| 0 <= i < s.len() ==> hex_val(s[i]) < base
}

/// The register an operand names, if it is `R0`..`R15` (case-insensitive,
/// leading zeros allowed).
pub open spec fn reg_spec(t: Seq<char>) -> Option<Register> {
    let s = strip_commas(t);
    if s.len() >= 2 && (s[0] == 'R' || s[0] == 'r') && all_digits(s.skip(1), 10) && digits_val(
        s.skip(1),
        10,
        0,
    ) < 16 {
        Some(digits_val(s.skip(1), 10, 0) as u8)
    } else {
        None
    }
}

/// The signed 64-bit immediate an operand denotes: optional `#`, then
/// `0x`/`0X` hex, or decimal with an optional sign.
pub open spec fn imm_spec(t: Seq<char>) -> Option<i64> {
    let s = strip_hashes(strip_commas(t));
    if s.len() >= 2 && s[0] == '0' && (s[1] == 'x' || s[1] == 'X') {
        let d = s.skip(2);
        if all_digits(d, 16) && digits_val(d, 16, 0) <= i64::MAX {
            Some(digits_val(d, 16, 0) as i64)
        } else {
            None
        }
    } else if s.len() >= 1 && (s[0] == '-' || s[0] == '+') {
        let d = s.skip(1);
        let v = digits_val(d, 10, 0);
        if all_digits(d, 10) && (if s[0] == '-' {
            v <= 0x8000_0000_0000_0000
        } else {
            v <= i64::MAX
        }) {
            Some((if s[0] == '-' {
                -v
            } else {
                v
            }) as i64)
        } else {
            None
        }
    } else {
        if all_digits(s, 10) && digits_val(s, 10, 0) <= i64::MAX {
            Some(digits_val(s, 10, 0) as i64)
        } else {
            None
        }
    }
}

/// The unsigned 8-bit byte operand (tape lengths), decimal.
pub open spec fn byte_spec(t: Seq<char>) -> Option<u8> {
    let s = strip_commas(t);
    if all_digits(s, 10) && digits_val(s, 10, 0) <= 255 {
        Some(digits_val(s, 10, 0) as u8)
    } else {
        None
    }
}

/// A label operand: the token with trailing commas removed.
pub open spec fn label_arg(t: Seq<char>) -> Seq<char> {
    strip_commas(t)
}

/// The tokens of a `Debug` message, joined with single spaces.
pub open spec fn join_spaces(ts: Seq<Seq<char>>) -> Seq<char>
    decreases ts.len(),
{
    if ts.len() == 0 {
        Seq::empty()
    } else if ts.len() == 1 {
        ts[0]
    } else {
        ts[0] + seq![' '] + join_spaces(ts.skip(1))
    }
}

/// The mnemonics the assembler knows.
pub ghost enum Mnemonic {
    MIAdd,
    MISub,
    MIMul,
    MIXor,
    MLoad,
    MStore,
    MPush,
    MPop,
    MLoadImm,
    MTapeRead,
    MTapeWrite,
    MTapeSeek,
    MTapeAdvance,
    MTapeMark,
    MTapeSeekMark,
    MJump,
    MBranchZero,
    MBranchNotZero,
    MCall,
    MReturn,
    MCheckpoint,
    MRewind,
    MCompare,
    MEqual,
    MLessThan,
    MHalt,
    MNop,
    MDebug,
    MUnknown,
}

/// The mnemonic a token names, case-insensitively, aliases included.
pub open spec fn mn_of(t: Seq<char>) -> Mnemonic {
    if eq_ci(t, "IADD"@) {
        Mnemonic::MIAdd
    } else if eq_ci(t, "ISUB"@) {
        Mnemonic::MISub
    } else if eq_ci(t, "IMUL"@) {
        Mnemonic::MIMul
    } else if eq_ci(t, "IXOR"@) {
        Mnemonic::MIXor
    } else if eq_ci(t, "LOAD"@) {
        Mnemonic::MLoad
    } else if eq_ci(t, "STORE"@) {
        Mnemonic::MStore
    } else if eq_ci(t, "PUSH"@) {
        Mnemonic::MPush
    } else if eq_ci(t, "POP"@) {
        Mnemonic::MPop
    } else if eq_ci(t, "LOADIMM"@) || eq_ci(t, "LI"@) {
        Mnemonic::MLoadImm
    } else if eq_ci(t, "TAPEREAD"@) {
        Mnemonic::MTapeRead
    } else if eq_ci(t, "TAPEWRITE"@) {
        Mnemonic::MTapeWrite
    } else if eq_ci(t, "TAPESEEK"@) {
        Mnemonic::MTapeSeek
    } else if eq_ci(t, "TAPEADVANCE"@) {
        Mnemonic::MTapeAdvance
    } else if eq_ci(t, "TAPEMARK"@) {
        Mnemonic::MTapeMark
    } else if eq_ci(t, "TAPESEEKMARK"@) {
        Mnemonic::MTapeSeekMark
    } else if eq_ci(t, "JMP"@) || eq_ci(t, "JUMP"@) {
        Mnemonic::MJump
    } else if eq_ci(t, "BZ"@) || eq_ci(t, "BRANCHZERO"@) {
        Mnemonic::MBranchZero
    } else if eq_ci(t, "BNZ"@) || eq_ci(t, "BRANCHNOTZERO"@) {
        Mnemonic::MBranchNotZero
    } else if eq_ci(t, "CALL"@) {
        Mnemonic::MCall
    } else if eq_ci(t, "RET"@) || eq_ci(t, "RETURN"@) {
        Mnemonic::MReturn
    } else if eq_ci(t, "CHECKPOINT"@) || eq_ci(t, "CP"@) {
        Mnemonic::MCheckpoint
    } else if eq_ci(t, "REWIND"@) || eq_ci(t, "RW"@) {
        Mnemonic::MRewind
    } else if eq_ci(t, "CMP"@) || eq_ci(t, "COMPARE"@) {
        Mnemonic::MCompare
    } else if eq_ci(t, "EQ"@) || eq_ci(t, "EQUAL"@) {
        Mnemonic::MEqual
    } else if eq_ci(t, "LT"@) || eq_ci(t, "LESSTHAN"@) {
        Mnemonic::MLessThan
    } else if eq_ci(t, "HALT"@) {
        Mnemonic::MHalt
    } else if eq_ci(t, "NOP"@) {
        Mnemonic::MNop
    } else if eq_ci(t, "DEBUG"@) {
        Mnemonic::MDebug
    } else {
        Mnemonic::MUnknown
    }
}

/// Whether a tokenised line parses.
pub open spec fn line_ok(ts: Seq<Seq<char>>) -> bool {
    ts.len() >= 1 && (match mn_of(ts[0]) {
        Mnemonic::MIAdd | Mnemonic::MISub | Mnemonic::MIMul | Mnemonic::MIXor
            | Mnemonic::MCompare | Mnemonic::MEqual | Mnemonic::MLessThan => ts.len() == 4
            && reg_spec(ts[1]) is Some && reg_spec(ts[2]) is Some && reg_spec(ts[3]) is Some,
        Mnemonic::MLoad | Mnemonic::MStore => ts.len() == 3 && reg_spec(ts[1]) is Some
            && reg_spec(ts[2]) is Some,
        Mnemonic::MPush | Mnemonic::MPop => ts.len() == 2 && reg_spec(ts[1]) is Some,
        Mnemonic::MLoadImm => ts.len() == 3 && reg_spec(ts[1]) is Some && imm_spec(
            ts[2],
        ) is Some,
        Mnemonic::MTapeRead | Mnemonic::MTapeWrite => ts.len() == 3 && reg_spec(ts[1]) is Some
            && byte_spec(ts[2]) is Some,
        Mnemonic::MTapeSeek | Mnemonic::MTapeAdvance => ts.len() == 2 && imm_spec(
            ts[1],
        ) is Some,
        Mnemonic::MTapeMark | Mnemonic::MTapeSeekMark | Mnemonic::MJump | Mnemonic::MCall
            | Mnemonic::MCheckpoint | Mnemonic::MRewind => ts.len() == 2,
        Mnemonic::MBranchZero | Mnemonic::MBranchNotZero => ts.len() == 3 && reg_spec(
            ts[1],
        ) is Some,
        Mnemonic::MReturn | Mnemonic::MHalt | Mnemonic::MNop | Mnemonic::MDebug => true,
        Mnemonic::MUnknown => false,
    })
}

/// The error a failing tokenised line reports: an unknown mnemonic, a
/// wrong operand count, or the first malformed operand.
pub open spec fn line_err(ts: Seq<Seq<char>>) -> crate::errors::ParseErrorKind {
    if ts.len() < 1 {
        crate::errors::ParseErrorKind::UnknownMnemonic
    } else {
        match mn_of(ts[0]) {
            Mnemonic::MIAdd | Mnemonic::MISub | Mnemonic::MIMul | Mnemonic::MIXor
                | Mnemonic::MCompare | Mnemonic::MEqual | Mnemonic::MLessThan => if ts.len()
                != 4 {
                crate::errors::ParseErrorKind::WrongOperandCount
            } else {
                crate::errors::ParseErrorKind::BadRegister
            },
            Mnemonic::MLoad | Mnemonic::MStore => if ts.len() != 3 {
                crate::errors::ParseErrorKind::WrongOperandCount
            } else {
                crate::errors::ParseErrorKind::BadRegister
            },
            Mnemonic::MPush | Mnemonic::MPop => if ts.len() != 2 {
                crate::errors::ParseErrorKind::WrongOperandCount
            } else {
                crate::errors::ParseErrorKind::BadRegister
            },
            Mnemonic::MLoadImm => if ts.len() != 3 {
                crate::errors::ParseErrorKind::WrongOperandCount
            } else if reg_spec(ts[1]) is None {
                crate::errors::ParseErrorKind::BadRegister
            } else {
                crate::errors::ParseErrorKind::BadImmediate
            },
            Mnemonic::MTapeRead | Mnemonic::MTapeWrite => if ts.len() != 3 {
                crate::errors::ParseErrorKind::WrongOperandCount
            } else if reg_spec(ts[1]) is None {
                crate::errors::ParseErrorKind::BadRegister
            } else {
                crate::errors::ParseErrorKind::BadByte
            },
            Mnemonic::MTapeSeek | Mnemonic::MTapeAdvance => if ts.len() != 2 {
                crate::errors::ParseErrorKind::WrongOperandCount
            } else {
                crate::errors::ParseErrorKind::BadImmediate
            },
            Mnemonic::MTapeMark | Mnemonic::MTapeSeekMark | Mnemonic::MJump | Mnemonic::MCall
                | Mnemonic::MCheckpoint | Mnemonic::MRewind =>
                crate::errors::ParseErrorKind::WrongOperandCount,
            Mnemonic::MBranchZero | Mnemonic::MBranchNotZero => if ts.len() != 3 {
                crate::errors::ParseErrorKind::WrongOperandCount
            } else {
                crate::errors::ParseErrorKind::BadRegister
            },
            _ => crate::errors::ParseErrorKind::UnknownMnemonic,
        }
    }
}

/// The instruction a tokenised line denotes: which variant with which
/// fields, token by token.
pub open spec fn inst_match(inst: Instruction, ts: Seq<Seq<char>>) -> bool {
    ts.len() >= 1 && (match inst {
        Instruction::IAdd { dst, src1, src2 } => mn_of(ts[0]) is MIAdd && ts.len() == 4
            && reg_spec(ts[1]) == Some(dst) && reg_spec(ts[2]) == Some(src1) && reg_spec(ts[3])
            == Some(src2),
        Instruction::ISub { dst, src1, src2 } => mn_of(ts[0]) is MISub && ts.len() == 4
            && reg_spec(ts[1]) == Some(dst) && reg_spec(ts[2]) == Some(src1) && reg_spec(ts[3])
            == Some(src2),
        Instruction::IMul { dst, src1, src2 } => mn_of(ts[0]) is MIMul && ts.len() == 4
            && reg_spec(ts[1]) == Some(dst) && reg_spec(ts[2]) == Some(src1) && reg_spec(ts[3])
            == Some(src2),
        Instruction::IXor { dst, src1, src2 } => mn_of(ts[0]) is MIXor && ts.len() == 4
            && reg_spec(ts[1]) == Some(dst) && reg_spec(ts[2]) == Some(src1) && reg_spec(ts[3])
            == Some(src2),
        Instruction::Compare { dst, src1, src2 } => mn_of(ts[0]) is MCompare && ts.len() == 4
            && reg_spec(ts[1]) == Some(dst) && reg_spec(ts[2]) == Some(src1) && reg_spec(ts[3])
            == Some(src2),
        Instruction::Equal { dst, src1, src2 } => mn_of(ts[0]) is MEqual && ts.len() == 4
            && reg_spec(ts[1]) == Some(dst) && reg_spec(ts[2]) == Some(src1) && reg_spec(ts[3])
            == Some(src2),
        Instruction::LessThan { dst, src1, src2 } => mn_of(ts[0]) is MLessThan && ts.len() == 4
            && reg_spec(ts[1]) == Some(dst) && reg_spec(ts[2]) == Some(src1) && reg_spec(ts[3])
            == Some(src2),
        Instruction::Load { reg, addr } => mn_of(ts[0]) is MLoad && ts.len() == 3 && reg_spec(
            ts[1],
        ) == Some(reg) && reg_spec(ts[2]) == Some(addr),
        Instruction::Store { addr, reg } => mn_of(ts[0]) is MStore && ts.len() == 3 && reg_spec(
            ts[1],
        ) == Some(addr) && reg_spec(ts[2]) == Some(reg),
        Instruction::Push { reg } => mn_of(ts[0]) is MPush && ts.len() == 2 && reg_spec(ts[1])
            == Some(reg),
        Instruction::Pop { reg } => mn_of(ts[0]) is MPop && ts.len() == 2 && reg_spec(ts[1])
            == Some(reg),
        Instruction::LoadImm { reg, value } => mn_of(ts[0]) is MLoadImm && ts.len() == 3
            && reg_spec(ts[1]) == Some(reg) && imm_spec(ts[2]) == Some(value),
        Instruction::TapeRead { reg, len } => mn_of(ts[0]) is MTapeRead && ts.len() == 3
            && reg_spec(ts[1]) == Some(reg) && byte_spec(ts[2]) == Some(len),
        Instruction::TapeWrite { reg, len } => mn_of(ts[0]) is MTapeWrite && ts.len() == 3
            && reg_spec(ts[1]) == Some(reg) && byte_spec(ts[2]) == Some(len),
        Instruction::TapeSeek { position } => mn_of(ts[0]) is MTapeSeek && ts.len() == 2
            && imm_spec(ts[1]) == Some(position),
        Instruction::TapeAdvance { delta } => mn_of(ts[0]) is MTapeAdvance && ts.len() == 2
            && imm_spec(ts[1]) == Some(delta),
        Instruction::TapeMark { label } => mn_of(ts[0]) is MTapeMark && ts.len() == 2 && label@
            == label_arg(ts[1]),
        Instruction::TapeSeekMark { label } => mn_of(ts[0]) is MTapeSeekMark && ts.len() == 2
            && label@ == label_arg(ts[1]),
        Instruction::Jump { label } => mn_of(ts[0]) is MJump && ts.len() == 2 && label@
            == label_arg(ts[1]),
        Instruction::BranchZero { reg, label } => mn_of(ts[0]) is MBranchZero && ts.len() == 3
            && reg_spec(ts[1]) == Some(reg) && label@ == label_arg(ts[2]),
        Instruction::BranchNotZero { reg, label } => mn_of(ts[0]) is MBranchNotZero && ts.len()
            == 3 && reg_spec(ts[1]) == Some(reg) && label@ == label_arg(ts[2]),
        Instruction::Call { label } => mn_of(ts[0]) is MCall && ts.len() == 2 && label@
            == label_arg(ts[1]),
        Instruction::Return => mn_of(ts[0]) is MReturn,
        Instruction::Checkpoint { label } => mn_of(ts[0]) is MCheckpoint && ts.len() == 2
            && label@ == label_arg(ts[1]),
        Instruction::Rewind { label } => mn_of(ts[0]) is MRewind && ts.len() == 2 && label@
            == label_arg(ts[1]),
        Instruction::Halt => mn_of(ts[0]) is MHalt,
        Instruction::Nop => mn_of(ts[0]) is MNop,
        Instruction::Debug { message } => mn_of(ts[0]) is MDebug && message@ == join_spaces(
            ts.skip(1),
        ),
        _ => false,
    })
}

/// The label map after scanning the lines: labels bind to the count of
/// instruction lines before them (wrapping as a signed 64-bit index),
/// later definitions overriding earlier ones.
pub open spec fn lbl_scan(
    lines: Seq<Seq<char>>,
    pos: i64,
    acc: Map<Seq<char>, i64>,
) -> Map<Seq<char>, i64>
    decreases lines.len(),
{
    if lines.len() == 0 {
        acc
    } else if is_blank(lines[0]) {
        lbl_scan(lines.skip(1), pos, acc)
    } else if is_label_line(lines[0]) {
        lbl_scan(lines.skip(1), pos, acc.insert(label_of(lines[0]), pos))
    } else {
        lbl_scan(lines.skip(1), vstd::wrapping::i64_specs::wrapping_add(pos, 1), acc)
    }
}

/// How many instruction lines the sequence holds.
pub open spec fn inst_count(lines: Seq<Seq<char>>) -> int
    decreases lines.len(),
{
    if lines.len() == 0 {
        0
    } else if is_blank(lines[0]) || is_label_line(lines[0]) {
        inst_count(lines.skip(1))
    } else {
        1 + inst_count(lines.skip(1))
    }
}

/// The token sequences of the instruction lines, in order.
pub open spec fn inst_lines(lines: Seq<Seq<char>>) -> Seq<Seq<Seq<char>>>
    decreases lines.len(),
{
    if lines.len() == 0 {
        Seq::empty()
    } else if is_blank(lines[0]) || is_label_line(lines[0]) {
        inst_lines(lines.skip(1))
    } else {
        seq![tokens_of(lines[0])] + inst_lines(lines.skip(1))
    }
}

/// The first instruction line that fails to parse, with its one-based
/// line number and error kind, if any.
pub open spec fn first_bad(lines: Seq<Seq<char>>, ln: int) -> Option<
    (int, crate::errors::ParseErrorKind),
>
    decreases lines.len(),
{
    if lines.len() == 0 {
        None
    } else if is_blank(lines[0]) || is_label_line(lines[0]) {
        first_bad(lines.skip(1), ln + 1)
    } else if line_ok(tokens_of(lines[0])) {
        first_bad(lines.skip(1), ln + 1)
    } else {
        Some((ln, line_err(tokens_of(lines[0]))))
    }
}

/// A comment-free prefix is the line up to its first semicolon.
proof fn lemma_comment_take(s: Seq<char>, k: int)
    requires
        0 <= k <= s.len(),
        forall|j: int| 0 <= j < k ==> s[j] != ';',
        k < s.len() ==> s[k] == ';',
    ensures
        strip_comment(s) == s.take(k),
    decreases k,
{
    if s.len() == 0 {
        assert(s.take(0) =~= Seq::<char>::empty());
    } else if k == 0 {
        assert(s.take(0) =~= Seq::<char>::empty());
    } else {
        assert(forall|j: int| 0 <= j < k - 1 ==> s.skip(1)[j] != ';');
        lemma_comment_take(s.skip(1), k - 1);
        assert(strip_comment(s) == seq![s[0]] + s.skip(1).take(k - 1));
        assert(seq![s[0]] + s.skip(1).take(k - 1) =~= s.take(k));
    }
}

/// Trimming the front skips the leading whitespace.
proof fn lemma_front_skip(s: Seq<char>, a: int)
    requires
        0 <= a <= s.len(),
        forall|j: int| 0 <= j < a ==> is_ws(s[j]),
        a < s.len() ==> !is_ws(s[a]),
    ensures
        trim_front(s) == s.skip(a),
    decreases a,
{
    if a == 0 {
        assert(s.skip(0) =~= s);
    } else {
        assert(forall|j: int| 0 <= j < a - 1 ==> is_ws(s.skip(1)[j]));
        lemma_front_skip(s.skip(1), a - 1);
        assert(s.skip(1).skip(a - 1) =~= s.skip(a));
    }
}

/// Trimming the back keeps the prefix before the trailing whitespace.
proof fn lemma_back_take(s: Seq<char>, b: int)
    requires
        0 <= b <= s.len(),
        forall|j: int| b <= j < s.len() ==> is_ws(s[j]),
        b > 0 ==> !is_ws(s[b - 1]),
    ensures
        trim_back(s) == s.take(b),
    decreases s.len(),
{
    if s.len() == 0 {
        assert(s.take(0) =~= s);
    } else if b == s.len() {
        assert(s.take(b) =~= s);
    } else {
        assert(is_ws(s.last()));
        assert(forall|j: int| b <= j < s.drop_last().len() ==> is_ws(s.drop_last()[j]));
        if b > 0 {
            assert(s.drop_last()[b - 1] == s[b - 1]);
        }
        lemma_back_take(s.drop_last(), b);
        assert(s.drop_last().take(b) =~= s.take(b));
    }
}

/// Stripping trailing copies of a character keeps the prefix before them.
proof fn lemma_strip_commas_take(s: Seq<char>, b: int)
    requires
        0 <= b <= s.len(),
        forall|j: int| b <= j < s.len() ==> s[j] == ',',
        b > 0 ==> s[b - 1] != ',',
    ensures
        strip_commas(s) == s.take(b),
    decreases s.len(),
{
    if s.len() == 0 {
        assert(s.take(0) =~= s);
    } else if b == s.len() {
        assert(s.take(b) =~= s);
    } else {
        assert(forall|j: int| b <= j < s.drop_last().len() ==> s.drop_last()[j] == ',');
        if b > 0 {
            assert(s.drop_last()[b - 1] == s[b - 1]);
        }
        lemma_strip_commas_take(s.drop_last(), b);
        assert(s.drop_last().take(b) =~= s.take(b));
    }
}

/// The same, for the trailing colons of a label line.
proof fn lemma_strip_colons_take(s: Seq<char>, b: int)
    requires
        0 <= b <= s.len(),
        forall|j: int| b <= j < s.len() ==> s[j] == ':',
        b > 0 ==> s[b - 1] != ':',
    ensures
        strip_colons(s) == s.take(b),
    decreases s.len(),
{
    if s.len() == 0 {
        assert(s.take(0) =~= s);
    } else if b == s.len() {
        assert(s.take(b) =~= s);
    } else {
        assert(forall|j: int| b <= j < s.drop_last().len() ==> s.drop_last()[j] == ':');
        if b > 0 {
            assert(s.drop_last()[b - 1] == s[b - 1]);
        }
        lemma_strip_colons_take(s.drop_last(), b);
        assert(s.drop_last().take(b) =~= s.take(b));
    }
}

/// Stripping leading hash markers skips them.
proof fn lemma_strip_hashes_skip(s: Seq<char>, a: int)
    requires
        0 <= a <= s.len(),
        forall|j: int| 0 <= j < a ==> s[j] == '#',
        a < s.len() ==> s[a] != '#',
    ensures
        strip_hashes(s) == s.skip(a),
    decreases a,
{
    if a == 0 {
        assert(s.skip(0) =~= s);
    } else {
        assert(forall|j: int| 0 <= j < a - 1 ==> s.skip(1)[j] == '#');
        lemma_strip_hashes_skip(s.skip(1), a - 1);
        assert(s.skip(1).skip(a - 1) =~= s.skip(a));
    }
}

/// A digit scan's value only grows from its accumulator.
proof fn lemma_digits_lower(s: Seq<char>, base: int, acc: int)
    requires
        base >= 1,
        acc >= 0,
    ensures
        digits_val(s, base, acc) >= acc,
    decreases s.len(),
{
    if s.len() > 0 {
        assert(acc * base >= acc) by (nonlinear_arith)
            requires
                acc >= 0,
                base >= 1,
        ;
        lemma_digits_lower(s.skip(1), base, acc * base + hex_val(s[0]));
    }
}

/// A token scan yields a token exactly when a word is in progress or a
/// non-whitespace character remains.
proof fn lemma_tok_scan_len(s: Seq<char>, cur: Seq<char>)
    ensures
        tok_scan(s, cur).len() >= 1 <==> (cur.len() > 0 || exists|i: int|
            0 <= i < s.len() && !is_ws(s[i])),
    decreases s.len(),
{
    if s.len() == 0 {
    } else if is_ws(s[0]) {
        if cur.len() == 0 {
            lemma_tok_scan_len(s.skip(1), Seq::empty());
        } else {
            lemma_tok_scan_len(s.skip(1), Seq::empty());
        }
        assert forall|i: int| 0 <= i < s.skip(1).len() && !is_ws(s.skip(1)[i]) implies exists|j:
            int| 0 <= j < s.len() && !is_ws(s[j]) by {
            assert(s[i + 1] == s.skip(1)[i]);
        }
        if exists|j: int| 0 <= j < s.len() && !is_ws(s[j]) {
            let j = choose|j: int| 0 <= j < s.len() && !is_ws(s[j]);
            assert(j >= 1);
            assert(s.skip(1)[j - 1] == s[j]);
        }
    } else {
        lemma_tok_scan_len(s.skip(1), cur.push(s[0]));
    }
}

/// Joining one more token appends a space and the token.
proof fn lemma_join_push(ts: Seq<Seq<char>>, x: Seq<char>)
    requires
        ts.len() >= 1,
    ensures
        join_spaces(ts.push(x)) == join_spaces(ts) + seq![' '] + x,
    decreases ts.len(),
{
    let t = ts.push(x);
    if ts.len() == 1 {
        assert(t.skip(1) =~= seq![x]);
        assert(join_spaces(seq![x]) == x);
        assert(join_spaces(t) == ts[0] + seq![' '] + x);
        assert(join_spaces(ts) == ts[0]);
    } else {
        assert(t.skip(1) =~= ts.skip(1).push(x));
        lemma_join_push(ts.skip(1), x);
        assert(join_spaces(t) == ts[0] + seq![' '] + (join_spaces(ts.skip(1)) + seq![' '] + x));
        assert(ts[0] + seq![' '] + (join_spaces(ts.skip(1)) + seq![' '] + x) =~= (ts[0] + seq![' ']
            + join_spaces(ts.skip(1))) + seq![' '] + x);
    }
}

/// The characters of a string, in order.
fn to_chars(s: &str) -> (r: Vec<char>)
    ensures
        r@ == s@,
{
    let n = s.unicode_len();
    let mut r: Vec<char> = Vec::new();
    let mut i: usize = 0;
    while i < n
        invariant
            n == s@.len(),
            0 <= i <= n,
            r@ == s@.take(i as int),
        decreases n - i,
    {
        r.push(s.get_char(i));
        proof {
            assert(r@ =~= s@.take(i + 1));
        }
        i += 1;
    }
    proof {
        assert(s@.take(n as int) =~= s@);
    }
    r
}

/// The string holding a range of characters.
fn chars_to_string(cs: &Vec<char>, from: usize, to: usize) -> (r: String)
    requires
        from <= to <= cs@.len(),
    ensures
        r@ == cs@.subrange(from as int, to as int),
{
    let mut r = String::new();
    let mut i = from;
    while i < to
        invariant
            from <= i <= to <= cs@.len(),
            r@ == cs@.subrange(from as int, i as int),
        decreases to - i,
    {
        r.push(cs[i]);
        proof {
            assert(r@ =~= cs@.subrange(from as int, i + 1));
        }
        i += 1;
    }
    r
}

/// Whether the character is parser whitespace.
fn is_ws_exec(c: char) -> (r: bool)
    ensures
        r == is_ws(c),
{
    c == ' ' || c == '\t' || c == '\r'
}

/// Case-insensitive string equality, decided against the views.
fn eq_ci_str(a: &str, b: &str) -> (r: bool)
    ensures
        r == eq_ci(a@, b@),
{
    let la = a.unicode_len();
    let lb = b.unicode_len();
    if la != lb {
        return false;
    }
    let mut i: usize = 0;
    while i < la
        invariant
            la == a@.len(),
            la == b@.len(),
            0 <= i <= la,
            forall|j: int| 0 <= j < i ==> upper_u(a@[j]) == upper_u(b@[j]),
        decreases la - i,
    {
        let ca = a.get_char(i) as u32;
        let cb = b.get_char(i) as u32;
        let ua = if ca >= 97 && ca <= 122 {
            ca - 32
        } else {
            ca
        };
        let ub = if cb >= 97 && cb <= 122 {
            cb - 32
        } else {
            cb
        };
        if ua != ub {
            return false;
        }
        i += 1;
    }
    true
}

/// The bounds of the cleaned line: comment stripped, then trimmed.
fn clean_bounds(cs: &Vec<char>) -> (r: (usize, usize))
    ensures
        r.0 <= r.1 <= cs@.len(),
        clean_line(cs@) == cs@.subrange(r.0 as int, r.1 as int),
{
    let n = cs.len();
    let mut k: usize = 0;
    while k < n && cs[k] != ';'
        invariant
            n == cs@.len(),
            0 <= k <= n,
            forall|j: int| 0 <= j < k ==> cs@[j] != ';',
        decreases n - k,
    {
        k += 1;
    }
    proof {
        lemma_comment_take(cs@, k as int);
    }
    let mut a: usize = 0;
    while a < k && is_ws_exec(cs[a])
        invariant
            0 <= a <= k <= cs@.len(),
            forall|j: int| 0 <= j < a ==> is_ws(cs@[j]),
        decreases k - a,
    {
        a += 1;
    }
    proof {
        assert(forall|j: int| 0 <= j < a ==> is_ws(cs@.take(k as int)[j]));
        lemma_front_skip(cs@.take(k as int), a as int);
    }
    let mut b: usize = k;
    while b > a && is_ws_exec(cs[b - 1])
        invariant
            a <= b <= k <= cs@.len(),
            forall|j: int| b <= j < k ==> is_ws(cs@[j]),
        decreases b,
    {
        b -= 1;
    }
    proof {
        let mid = cs@.take(k as int).skip(a as int);
        assert(mid =~= cs@.subrange(a as int, k as int));
        assert(forall|j: int| b - a <= j < mid.len() ==> is_ws(mid[j]));
        if b > a {
            assert(mid[b - a - 1] == cs@[b - 1]);
        }
        lemma_back_take(mid, b as int - a as int);
        assert(mid.take(b as int - a as int) =~= cs@.subrange(a as int, b as int));
    }
    (a, b)
}

/// The tokens of a character range, each as a string.
fn tokenize_range(cs: &Vec<char>, from: usize, to: usize) -> (r: Vec<String>)
    requires
        from <= to <= cs@.len(),
    ensures
        r@.map_values(|t: String| t@) == tok_scan(
            cs@.subrange(from as int, to as int),
            Seq::empty(),
        ),
{
    let ghost full = cs@.subrange(from as int, to as int);
    let mut out: Vec<String> = Vec::new();
    let mut cur = String::new();
    let mut i = from;
    while i < to
        invariant
            from <= i <= to <= cs@.len(),
            full == cs@.subrange(from as int, to as int),
            out@.map_values(|t: String| t@) + tok_scan(
                cs@.subrange(i as int, to as int),
                cur@,
            ) =~= tok_scan(full, Seq::empty()),
        decreases to - i,
    {
        let c = cs[i];
        proof {
            assert(cs@.subrange(i as int, to as int)[0] == c);
            assert(cs@.subrange(i as int, to as int).skip(1) =~= cs@.subrange(
                i + 1,
                to as int,
            ));
        }
        if is_ws_exec(c) {
            proof {
                if cur@.len() == 0 {
                    assert(cur@ =~= Seq::<char>::empty());
                }
            }
            if !cur.as_str().is_empty() {
                let ghost outv0 = out@.map_values(|t: String| t@);
                let ghost curv = cur@;
                out.push(cur);
                cur = String::new();
                proof {
                    assert(out@.map_values(|t: String| t@) =~= outv0.push(curv));
                    assert(outv0.push(curv) + tok_scan(cs@.subrange(i + 1, to as int), cur@)
                        =~= outv0 + (seq![curv] + tok_scan(
                        cs@.subrange(i + 1, to as int),
                        Seq::empty(),
                    )));
                }
            }
        } else {
            cur.push(c);
        }
        i += 1;
    }
    proof {
        assert(cs@.subrange(to as int, to as int) =~= Seq::<char>::empty());
    }
    if !cur.as_str().is_empty() {
        let ghost outv0 = out@.map_values(|t: String| t@);
        let ghost curv = cur@;
        out.push(cur);
        proof {
            assert(out@.map_values(|t: String| t@) =~= outv0.push(curv));
            assert(outv0.push(curv) =~= outv0 + seq![curv]);
        }
    }
    out
}

/// The value of a digit range in the given base, capped; `None` when a
/// character is no digit of the base or the value exceeds the cap.
fn parse_digits(cs: &Vec<char>, from: usize, to: usize, base: u64, cap: u64) -> (r: Option<u64>)
    requires
        from <= to <= cs@.len(),
        base == 10 || base == 16,
        cap >= 16,
    ensures
        ({
            let s = cs@.subrange(from as int, to as int);
            match r {
                Some(v) => all_digits(s, base as int) && digits_val(s, base as int, 0) == v && v
                    <= cap,
                None => !(all_digits(s, base as int) && digits_val(s, base as int, 0) <= cap),
            }
        }),
{
    let ghost s = cs@.subrange(from as int, to as int);
    if from == to {
        return None;
    }
    let mut acc: u64 = 0;
    let mut i = from;
    while i < to
        invariant
            from <= i <= to <= cs@.len(),
            base == 10 || base == 16,
            cap >= 16,
            s == cs@.subrange(from as int, to as int),
            forall|j: int| 0 <= j < i - from ==> hex_val(s[j]) < base,
            acc <= cap,
            digits_val(s, base as int, 0) == digits_val(
                cs@.subrange(i as int, to as int),
                base as int,
                acc as int,
            ),
        decreases to - i,
    {
        let ghost rem = cs@.subrange(i as int, to as int);
        proof {
            assert(rem[0] == cs@[i as int]);
            assert(rem[0] == s[i - from]);
            assert(rem.skip(1) =~= cs@.subrange(i + 1, to as int));
        }
        let c = cs[i];
        let u = c as u32;
        let d: u64 = if u >= 48 && u <= 57 {
            (u - 48) as u64
        } else if u >= 97 && u <= 102 {
            (u - 87) as u64
        } else if u >= 65 && u <= 70 {
            (u - 55) as u64
        } else {
            16
        };
        proof {
            assert(d as int == hex_val(c));
        }
        if d >= base {
            return None;
        }
        if acc > (cap - d) / base {
            proof {
                vstd::arithmetic::div_mod::lemma_fundamental_div_mod(
                    (cap - d) as int,
                    base as int,
                );
                vstd::arithmetic::div_mod::lemma_mod_division_less_than_divisor(
                    (cap - d) as int,
                    base as int,
                );
                assert(acc * base + d > cap) by (nonlinear_arith)
                    requires
                        acc >= ((cap - d) as int / base as int) + 1,
                        (cap - d) as int == base as int * ((cap - d) as int / base as int) + (cap
                            - d) as int % base as int,
                        0 <= ((cap - d) as int % (base as int)),
                        ((cap - d) as int % (base as int)) < (base as int),
                        base >= 1,
                        d >= 0,
                ;
                lemma_digits_lower(rem.skip(1), base as int, acc as int * base as int + d as int);
            }
            return None;
        }
        proof {
            vstd::arithmetic::div_mod::lemma_fundamental_div_mod((cap - d) as int, base as int);
            vstd::arithmetic::div_mod::lemma_mod_division_less_than_divisor(
                (cap - d) as int,
                base as int,
            );
            assert(acc * base + d <= cap) by (nonlinear_arith)
                requires
                    acc <= (cap - d) as int / base as int,
                    (cap - d) as int == base as int * ((cap - d) as int / base as int) + (cap
                        - d) as int % base as int,
                    0 <= ((cap - d) as int % (base as int)),
                    ((cap - d) as int % (base as int)) < (base as int),
                    base >= 1,
                    d >= 0,
                    acc >= 0,
            ;
        }
        acc = acc * base + d;
        i += 1;
    }
    proof {
        assert(cs@.subrange(to as int, to as int) =~= Seq::<char>::empty());
        assert(forall|j: int| 0 <= j < s.len() ==> hex_val(s[j]) < base);
    }
    Some(acc)
}

/// An operand with its trailing commas removed, as a fresh string.
fn strip_commas_str(t: &str) -> (r: String)
    ensures
        r@ == strip_commas(t@),
{
    let cs = to_chars(t);
    let mut b = cs.len();
    while b > 0 && cs[b - 1] == ','
        invariant
            0 <= b <= cs@.len(),
            forall|j: int| b <= j < cs@.len() ==> cs@[j] == ',',
        decreases b,
    {
        b -= 1;
    }
    proof {
        lemma_strip_commas_take(cs@, b as int);
        assert(cs@.take(b as int) =~= cs@.subrange(0, b as int));
    }
    chars_to_string(&cs, 0, b)
}

/// The source's lines, each as its characters.
fn split_lines_exec(source: &str) -> (r: Vec<Vec<char>>)
    ensures
        r@.map_values(|l: Vec<char>| l@) == split_lines(source@),
{
    let cs = to_chars(source);
    let mut out: Vec<Vec<char>> = Vec::new();
    let mut cur: Vec<char> = Vec::new();
    proof {
        assert(cs@.skip(0) =~= cs@);
        assert(out@.map_values(|l: Vec<char>| l@) =~= Seq::<Seq<char>>::empty());
        assert(Seq::<Seq<char>>::empty() + line_scan(cs@, Seq::empty()) =~= line_scan(
            cs@,
            Seq::empty(),
        ));
    }
    let mut i: usize = 0;
    while i < cs.len()
        invariant
            cs@ == source@,
            0 <= i <= cs@.len(),
            out@.map_values(|l: Vec<char>| l@) + line_scan(cs@.skip(i as int), cur@)
                =~= split_lines(source@),
        decreases cs@.len() - i,
    {
        let c = cs[i];
        proof {
            assert(cs@.skip(i as int)[0] == c);
            assert(cs@.skip(i as int).skip(1) =~= cs@.skip(i + 1));
        }
        if c == '\n' {
            let ghost outv0 = out@.map_values(|l: Vec<char>| l@);
            let ghost curv = cur@;
            out.push(cur);
            cur = Vec::new();
            proof {
                assert(out@.map_values(|l: Vec<char>| l@) =~= outv0.push(curv));
                assert(outv0.push(curv) + line_scan(cs@.skip(i + 1), cur@) =~= outv0 + (seq![curv]
                    + line_scan(cs@.skip(i + 1), Seq::empty())));
            }
        } else {
            cur.push(c);
        }
        i += 1;
    }
    proof {
        assert(cs@.skip(cs@.len() as int) =~= Seq::<char>::empty());
    }
    let ghost outv0 = out@.map_values(|l: Vec<char>| l@);
    let ghost curv = cur@;
    out.push(cur);
    proof {
        assert(out@.map_values(|l: Vec<char>| l@) =~= outv0.push(curv));
        assert(outv0.push(curv) =~= outv0 + seq![curv]);
    }
    out
}

/// The assembler: collects labels, then parses instructions.
pub struct Parser {
    labels: Vec<(String, i64)>,
    current_position: i64,
}

impl Parser {
    /// The labels collected so far, as a map to instruction indices.
    pub closed spec fn label_map(self) -> Map<Seq<char>, i64> {
        assoc_map(self.labels@)
    }

    /// The parser's invariant.
    pub closed spec fn inv(self) -> bool {
        keys_unique(self.labels@)
    }

    /// A fresh parser with no labels.
    pub fn new() -> (r: Parser)
        ensures
            r.inv(),
            r.label_map() == Map::<Seq<char>, i64>::empty(),
    {
        Parser { labels: Vec::new(), current_position: 0 }
    }

    /// The collected labels, as pairs of name and instruction index.
    pub fn labels(&self) -> (r: &Vec<(String, i64)>)
        requires
            self.inv(),
        ensures
            keys_unique(r@),
            assoc_map(r@) == self.label_map(),
    {
        &self.labels
    }

    /// The instruction index a label was collected at, if any.
    pub fn get_label(&self, name: &str) -> (r: Option<i64>)
        requires
            self.inv(),
        ensures
            (match r {
                Some(v) => self.label_map().dom().contains(name@) && v
                    == self.label_map()[name@],
                None => !self.label_map().dom().contains(name@),
            }),
    {
        match crate::names::assoc_index(&self.labels, name) {
            Some(i) => {
                proof {
                    crate::names::lemma_assoc_at(self.labels@, i as int);
                }
                Some(self.labels[i].1)
            }
            None => None,
        }
    }

    /// Parse a register operand: `R0`..`R15`, case-insensitive, with
    /// trailing commas allowed.
    fn parse_register(&self, s: &str) -> (r: Result<Register, crate::errors::ParseErrorKind>)
        ensures
            (match reg_spec(s@) {
                Some(v) => r == Ok::<Register, crate::errors::ParseErrorKind>(v),
                None => r == Err::<Register, crate::errors::ParseErrorKind>(
                    crate::errors::ParseErrorKind::BadRegister,
                ),
            }),
    {
        let cs = to_chars(s);
        let mut b = cs.len();
        while b > 0 && cs[b - 1] == ','
            invariant
                0 <= b <= cs@.len(),
                cs@ == s@,
                forall|j: int| b <= j < cs@.len() ==> cs@[j] == ',',
            decreases b,
        {
            b -= 1;
        }
        proof {
            lemma_strip_commas_take(cs@, b as int);
        }
        if b < 2 {
            return Err(crate::errors::ParseErrorKind::BadRegister);
        }
        let c0 = cs[0];
        if !(c0 == 'R' || c0 == 'r') {
            return Err(crate::errors::ParseErrorKind::BadRegister);
        }
        proof {
            assert(cs@.subrange(1, b as int) =~= strip_commas(s@).skip(1));
        }
        match parse_digits(&cs, 1, b, 10, 255) {
            Some(v) => {
                if v < 16 {
                    Ok(v as u8)
                } else {
                    Err(crate::errors::ParseErrorKind::BadRegister)
                }
            }
            None => Err(crate::errors::ParseErrorKind::BadRegister),
        }
    }

    /// Parse an immediate operand: optional `#`, then hex or signed
    /// decimal, 64-bit.
    fn parse_immediate(&self, s: &str) -> (r: Result<i64, crate::errors::ParseErrorKind>)
        ensures
            (match imm_spec(s@) {
                Some(v) => r == Ok::<i64, crate::errors::ParseErrorKind>(v),
                None => r == Err::<i64, crate::errors::ParseErrorKind>(
                    crate::errors::ParseErrorKind::BadImmediate,
                ),
            }),
    {
        let cs = to_chars(s);
        let mut b = cs.len();
        while b > 0 && cs[b - 1] == ','
            invariant
                0 <= b <= cs@.len(),
                cs@ == s@,
                forall|j: int| b <= j < cs@.len() ==> cs@[j] == ',',
            decreases b,
        {
            b -= 1;
        }
        proof {
            lemma_strip_commas_take(cs@, b as int);
        }
        let mut a: usize = 0;
        while a < b && cs[a] == '#'
            invariant
                0 <= a <= b <= cs@.len(),
                cs@ == s@,
                forall|j: int| 0 <= j < a ==> cs@[j] == '#',
            decreases b - a,
        {
            a += 1;
        }
        let ghost stripped = strip_hashes(strip_commas(s@));
        proof {
            assert(forall|j: int| 0 <= j < a ==> cs@.take(b as int)[j] == '#');
            lemma_strip_hashes_skip(cs@.take(b as int), a as int);
            assert(cs@.take(b as int).skip(a as int) =~= cs@.subrange(a as int, b as int));
        }
        if b - a >= 2 && cs[a] == '0' && (cs[a + 1] == 'x' || cs[a + 1] == 'X') {
            proof {
                assert(cs@.subrange(a as int + 2, b as int) =~= stripped.skip(2));
            }
            match parse_digits(&cs, a + 2, b, 16, 0x7fff_ffff_ffff_ffff) {
                Some(v) => Ok(v as i64),
                None => Err(crate::errors::ParseErrorKind::BadImmediate),
            }
        } else if b - a >= 1 && (cs[a] == '-' || cs[a] == '+') {
            let neg = cs[a] == '-';
            let cap: u64 = if neg {
                0x8000_0000_0000_0000
            } else {
                0x7fff_ffff_ffff_ffff
            };
            proof {
                assert(cs@.subrange(a as int + 1, b as int) =~= stripped.skip(1));
            }
            match parse_digits(&cs, a + 1, b, 10, cap) {
                Some(m) => {
                    if neg {
                        if m == 0x8000_0000_0000_0000 {
                            Ok(i64::MIN)
                        } else {
                            Ok(-(m as i64))
                        }
                    } else {
                        Ok(m as i64)
                    }
                }
                None => Err(crate::errors::ParseErrorKind::BadImmediate),
            }
        } else {
            proof {
                assert(cs@.subrange(a as int, b as int) =~= stripped);
            }
            match parse_digits(&cs, a, b, 10, 0x7fff_ffff_ffff_ffff) {
                Some(v) => Ok(v as i64),
                None => Err(crate::errors::ParseErrorKind::BadImmediate),
            }
        }
    }

    /// Parse a byte operand: unsigned 8-bit decimal.
    fn parse_byte(&self, s: &str) -> (r: Result<u8, crate::errors::ParseErrorKind>)
        ensures
            (match byte_spec(s@) {
                Some(v) => r == Ok::<u8, crate::errors::ParseErrorKind>(v),
                None => r == Err::<u8, crate::errors::ParseErrorKind>(
                    crate::errors::ParseErrorKind::BadByte,
                ),
            }),
    {
        let cs = to_chars(s);
        let mut b = cs.len();
        while b > 0 && cs[b - 1] == ','
            invariant
                0 <= b <= cs@.len(),
                cs@ == s@,
                forall|j: int| b <= j < cs@.len() ==> cs@[j] == ',',
            decreases b,
        {
            b -= 1;
        }
        proof {
            lemma_strip_commas_take(cs@, b as int);
            assert(cs@.subrange(0, b as int) =~= cs@.take(b as int));
        }
        match parse_digits(&cs, 0, b, 10, 255) {
            Some(v) => Ok(v as u8),
            None => Err(crate::errors::ParseErrorKind::BadByte),
        }
    }

    /// The message of a `Debug` line: the operand tokens joined by single
    /// spaces.
    fn join_message(&self, toks: &Vec<String>) -> (r: String)
        requires
            toks@.len() >= 1,
        ensures
            r@ == join_spaces(toks@.map_values(|t: String| t@).skip(1)),
    {
        let ghost tv = toks@.map_values(|t: String| t@);
        let mut r = String::new();
        if toks.len() == 1 {
            proof {
                assert(tv.skip(1) =~= Seq::<Seq<char>>::empty());
            }
            return r;
        }
        r.append(toks[1].as_str());
        let mut i: usize = 2;
        while i < toks.len()
            invariant
                2 <= i <= toks@.len(),
                tv == toks@.map_values(|t: String| t@),
                tv.len() == toks@.len(),
                r@ == join_spaces(tv.subrange(1, i as int)),
            decreases toks@.len() - i,
        {
            proof {
                reveal_strlit(" ");
                assert(" "@ =~= seq![' ']);
                assert(tv.subrange(1, i + 1) =~= tv.subrange(1, i as int).push(tv[i as int]));
                lemma_join_push(tv.subrange(1, i as int), tv[i as int]);
            }
            r.append(" ");
            r.append(toks[i].as_str());
            i += 1;
        }
        proof {
            assert(tv.subrange(1, tv.len() as int) =~= tv.skip(1));
        }
        r
    }

    /// Parse one tokenised instruction line.
    #[verifier::rlimit(100)]
    #[verifier::spinoff_prover]
    fn parse_instruction(&self, toks: &Vec<String>) -> (r: Result<
        Instruction,
        crate::errors::ParseErrorKind,
    >)
        requires
            toks@.len() >= 1,
        ensures
            ({
                let tv = toks@.map_values(|t: String| t@);
                match r {
                    Ok(inst) => line_ok(tv) && inst_match(inst, tv),
                    Err(k) => !line_ok(tv) && k == line_err(tv),
                }
            }),
    {
        let ghost tv = toks@.map_values(|t: String| t@);
        let t0 = toks[0].as_str();
        proof {
            assert(tv[0] == toks@[0]@);
        }
        if eq_ci_str(t0, "IADD") {
            proof {
                assert(mn_of(tv[0]) is MIAdd);
            }
            if toks.len() != 4 {
                return Err(crate::errors::ParseErrorKind::WrongOperandCount);
            }
            let dst = match self.parse_register(toks[1].as_str()) {
                Ok(v) => v,
                Err(e) => {
                    return Err(e);
                }
            };
            let src1 = match self.parse_register(toks[2].as_str()) {
                Ok(v) => v,
                Err(e) => {
                    return Err(e);
                }
            };
            let src2 = match self.parse_register(toks[3].as_str()) {
                Ok(v) => v,
                Err(e) => {
                    return Err(e);
                }
            };
            Ok(Instruction::IAdd { dst, src1, src2 })
        } else if eq_ci_str(t0, "ISUB") {
            proof {
                assert(mn_of(tv[0]) is MISub);
            }
            if toks.len() != 4 {
                return Err(crate::errors::ParseErrorKind::WrongOperandCount);
            }
            let dst = match self.parse_register(toks[1].as_str()) {
                Ok(v) => v,
                Err(e) => {
                    return Err(e);
                }
            };
            let src1 = match self.parse_register(toks[2].as_str()) {
                Ok(v) => v,
                Err(e) => {
                    return Err(e);
                }
            };
            let src2 = match self.parse_register(toks[3].as_str()) {
                Ok(v) => v,
                Err(e) => {
                    return Err(e);
                }
            };
            Ok(Instruction::ISub { dst, src1, src2 })
        } else if eq_ci_str(t0, "IMUL") {
            proof {
                assert(mn_of(tv[0]) is MIMul);
            }
            if toks.len() != 4 {
                return Err(crate::errors::ParseErrorKind::WrongOperandCount);
            }
            let dst = match self.parse_register(toks[1].as_str()) {
                Ok(v) => v,
                Err(e) => {
                    return Err(e);
                }
            };
            let src1 = match self.parse_register(toks[2].as_str()) {
                Ok(v) => v,
                Err(e) => {
                    return Err(e);
                }
            };
            let src2 = match self.parse_register(toks[3].as_str()) {
                Ok(v) => v,
                Err(e) => {
                    return Err(e);
                }
            };
            Ok(Instruction::IMul { dst, src1, src2 })
        } else if eq_ci_str(t0, "IXOR") {
            proof {
                assert(mn_of(tv[0]) is MIXor);
            }
            if toks.len() != 4 {
                return Err(crate::errors::ParseErrorKind::WrongOperandCount);
            }
            let dst = match self.parse_register(toks[1].as_str()) {
                Ok(v) => v,
                Err(e) => {
                    return Err(e);
                }
            };
            let src1 = match self.parse_register(toks[2].as_str()) {
                Ok(v) => v,
                Err(e) => {
                    return Err(e);
                }
            };
            let src2 = match self.parse_register(toks[3].as_str()) {
                Ok(v) => v,
                Err(e) => {
                    return Err(e);
                }
            };
            Ok(Instruction::IXor { dst, src1, src2 })
        } else if eq_ci_str(t0, "LOAD") {
            proof {
                assert(mn_of(tv[0]) is MLoad);
            }
            if toks.len() != 3 {
                return Err(crate::errors::ParseErrorKind::WrongOperandCount);
            }
            let reg = match self.parse_register(toks[1].as_str()) {
                Ok(v) => v,
                Err(e) => {
                    return Err(e);
                }
            };
            let addr = match self.parse_register(toks[2].as_str()) {
                Ok(v) => v,
                Err(e) => {
                    return Err(e);
                }
            };
            Ok(Instruction::Load { reg, addr })
        } else if eq_ci_str(t0, "STORE") {
            proof {
                assert(mn_of(tv[0]) is MStore);
            }
            if toks.len() != 3 {
                return Err(crate::errors::ParseErrorKind::WrongOperandCount);
            }
            let addr = match self.parse_register(toks[1].as_str()) {
                Ok(v) => v,
                Err(e) => {
                    return Err(e);
                }
            };
            let reg = match self.parse_register(toks[2].as_str()) {
                Ok(v) => v,
                Err(e) => {
                    return Err(e);
                }
            };
            Ok(Instruction::Store { addr, reg })
        } else if eq_ci_str(t0, "PUSH") {
            proof {
                assert(mn_of(tv[0]) is MPush);
            }
            if toks.len() != 2 {
                return Err(crate::errors::ParseErrorKind::WrongOperandCount);
            }
            let reg = match self.parse_register(toks[1].as_str()) {
                Ok(v) => v,
                Err(e) => {
                    return Err(e);
                }
            };
            Ok(Instruction::Push { reg })
        } else if eq_ci_str(t0, "POP") {
            proof {
                assert(mn_of(tv[0]) is MPop);
            }
            if toks.len() != 2 {
                return Err(crate::errors::ParseErrorKind::WrongOperandCount);
            }
            let reg = match self.parse_register(toks[1].as_str()) {
                Ok(v) => v,
                Err(e) => {
                    return Err(e);
                }
            };
            Ok(Instruction::Pop { reg })
        } else {
            self.parse_instruction_mid(toks)
        }
    }

    /// The middle of the mnemonic table: immediates and the tape
    /// primitives.
    #[verifier::rlimit(100)]
    #[verifier::spinoff_prover]
    fn parse_instruction_mid(&self, toks: &Vec<String>) -> (r: Result<
        Instruction,
        crate::errors::ParseErrorKind,
    >)
        requires
            toks@.len() >= 1,
            !eq_ci(toks@.map_values(|t: String| t@)[0], "IADD"@),
            !eq_ci(toks@.map_values(|t: String| t@)[0], "ISUB"@),
            !eq_ci(toks@.map_values(|t: String| t@)[0], "IMUL"@),
            !eq_ci(toks@.map_values(|t: String| t@)[0], "IXOR"@),
            !eq_ci(toks@.map_values(|t: String| t@)[0], "LOAD"@),
            !eq_ci(toks@.map_values(|t: String| t@)[0], "STORE"@),
            !eq_ci(toks@.map_values(|t: String| t@)[0], "PUSH"@),
            !eq_ci(toks@.map_values(|t: String| t@)[0], "POP"@),
        ensures
            ({
                let tv = toks@.map_values(|t: String| t@);
                match r {
                    Ok(inst) => line_ok(tv) && inst_match(inst, tv),
                    Err(k) => !line_ok(tv) && k == line_err(tv),
                }
            }),
    {
        let ghost tv = toks@.map_values(|t: String| t@);
        let t0 = toks[0].as_str();
        proof {
            assert(tv[0] == toks@[0]@);
        }
        if eq_ci_str(t0, "LOADIMM") || eq_ci_str(t0, "LI") {
            proof {
                assert(mn_of(tv[0]) is MLoadImm);
            }
            if toks.len() != 3 {
                return Err(crate::errors::ParseErrorKind::WrongOperandCount);
            }
            let reg = match self.parse_register(toks[1].as_str()) {
                Ok(v) => v,
                Err(e) => {
                    return Err(e);
                }
            };
            let value = match self.parse_immediate(toks[2].as_str()) {
                Ok(v) => v,
                Err(e) => {
                    return Err(e);
                }
            };
            Ok(Instruction::LoadImm { reg, value })
        } else if eq_ci_str(t0, "TAPEREAD") {
            proof {
                assert(mn_of(tv[0]) is MTapeRead);
            }
            if toks.len() != 3 {
                return Err(crate::errors::ParseErrorKind::WrongOperandCount);
            }
            let reg = match self.parse_register(toks[1].as_str()) {
                Ok(v) => v,
                Err(e) => {
                    return Err(e);
                }
            };
            let len = match self.parse_byte(toks[2].as_str()) {
                Ok(v) => v,
                Err(e) => {
                    return Err(e);
                }
            };
            Ok(Instruction::TapeRead { reg, len })
        } else if eq_ci_str(t0, "TAPEWRITE") {
            proof {
                assert(mn_of(tv[0]) is MTapeWrite);
            }
            if toks.len() != 3 {
                return Err(crate::errors::ParseErrorKind::WrongOperandCount);
            }
            let reg = match self.parse_register(toks[1].as_str()) {
                Ok(v) => v,
                Err(e) => {
                    return Err(e);
                }
            };
            let len = match self.parse_byte(toks[2].as_str()) {
                Ok(v) => v,
                Err(e) => {
                    return Err(e);
                }
            };
            Ok(Instruction::TapeWrite { reg, len })
        } else if eq_ci_str(t0, "TAPESEEK") {
            proof {
                assert(mn_of(tv[0]) is MTapeSeek);
            }
            if toks.len() != 2 {
                return Err(crate::errors::ParseErrorKind::WrongOperandCount);
            }
            let position = match self.parse_immediate(toks[1].as_str()) {
                Ok(v) => v,
                Err(e) => {
                    return Err(e);
                }
            };
            Ok(Instruction::TapeSeek { position })
        } else if eq_ci_str(t0, "TAPEADVANCE") {
            proof {
                assert(mn_of(tv[0]) is MTapeAdvance);
            }
            if toks.len() != 2 {
                return Err(crate::errors::ParseErrorKind::WrongOperandCount);
            }
            let delta = match self.parse_immediate(toks[1].as_str()) {
                Ok(v) => v,
                Err(e) => {
                    return Err(e);
                }
            };
            Ok(Instruction::TapeAdvance { delta })
        } else if eq_ci_str(t0, "TAPEMARK") {
            proof {
                assert(mn_of(tv[0]) is MTapeMark);
            }
            if toks.len() != 2 {
                return Err(crate::errors::ParseErrorKind::WrongOperandCount);
            }
            Ok(Instruction::TapeMark { label: strip_commas_str(toks[1].as_str()) })
        } else if eq_ci_str(t0, "TAPESEEKMARK") {
            proof {
                assert(mn_of(tv[0]) is MTapeSeekMark);
            }
            if toks.len() != 2 {
                return Err(crate::errors::ParseErrorKind::WrongOperandCount);
            }
            Ok(Instruction::TapeSeekMark { label: strip_commas_str(toks[1].as_str()) })
        } else {
            self.parse_instruction_rest(toks)
        }
    }

    /// The rest of the mnemonic table: control flow, time operations,
    /// comparisons and the system instructions.
    #[verifier::rlimit(100)]
    #[verifier::spinoff_prover]
    fn parse_instruction_rest(&self, toks: &Vec<String>) -> (r: Result<
        Instruction,
        crate::errors::ParseErrorKind,
    >)
        requires
            toks@.len() >= 1,
            !eq_ci(toks@.map_values(|t: String| t@)[0], "IADD"@),
            !eq_ci(toks@.map_values(|t: String| t@)[0], "ISUB"@),
            !eq_ci(toks@.map_values(|t: String| t@)[0], "IMUL"@),
            !eq_ci(toks@.map_values(|t: String| t@)[0], "IXOR"@),
            !eq_ci(toks@.map_values(|t: String| t@)[0], "LOAD"@),
            !eq_ci(toks@.map_values(|t: String| t@)[0], "STORE"@),
            !eq_ci(toks@.map_values(|t: String| t@)[0], "PUSH"@),
            !eq_ci(toks@.map_values(|t: String| t@)[0], "POP"@),
            !eq_ci(toks@.map_values(|t: String| t@)[0], "LOADIMM"@),
            !eq_ci(toks@.map_values(|t: String| t@)[0], "LI"@),
            !eq_ci(toks@.map_values(|t: String| t@)[0], "TAPEREAD"@),
            !eq_ci(toks@.map_values(|t: String| t@)[0], "TAPEWRITE"@),
            !eq_ci(toks@.map_values(|t: String| t@)[0], "TAPESEEK"@),
            !eq_ci(toks@.map_values(|t: String| t@)[0], "TAPEADVANCE"@),
            !eq_ci(toks@.map_values(|t: String| t@)[0], "TAPEMARK"@),
            !eq_ci(toks@.map_values(|t: String| t@)[0], "TAPESEEKMARK"@),
        ensures
            ({
                let tv = toks@.map_values(|t: String| t@);
                match r {
                    Ok(inst) => line_ok(tv) && inst_match(inst, tv),
                    Err(k) => !line_ok(tv) && k == line_err(tv),
                }
            }),
    {
        let ghost tv = toks@.map_values(|t: String| t@);
        let t0 = toks[0].as_str();
        proof {
            assert(tv[0] == toks@[0]@);
        }
        if eq_ci_str(t0, "JMP") || eq_ci_str(t0, "JUMP") {
            proof {
                assert(mn_of(tv[0]) is MJump);
            }
            if toks.len() != 2 {
                return Err(crate::errors::ParseErrorKind::WrongOperandCount);
            }
            Ok(Instruction::Jump { label: strip_commas_str(toks[1].as_str()) })
        } else if eq_ci_str(t0, "BZ") || eq_ci_str(t0, "BRANCHZERO") {
            proof {
                assert(mn_of(tv[0]) is MBranchZero);
            }
            if toks.len() != 3 {
                return Err(crate::errors::ParseErrorKind::WrongOperandCount);
            }
            let reg = match self.parse_register(toks[1].as_str()) {
                Ok(v) => v,
                Err(e) => {
                    return Err(e);
                }
            };
            Ok(Instruction::BranchZero { reg, label: strip_commas_str(toks[2].as_str()) })
        } else if eq_ci_str(t0, "BNZ") || eq_ci_str(t0, "BRANCHNOTZERO") {
            proof {
                assert(mn_of(tv[0]) is MBranchNotZero);
            }
            if toks.len() != 3 {
                return Err(crate::errors::ParseErrorKind::WrongOperandCount);
            }
            let reg = match self.parse_register(toks[1].as_str()) {
                Ok(v) => v,
                Err(e) => {
                    return Err(e);
                }
            };
            Ok(Instruction::BranchNotZero { reg, label: strip_commas_str(toks[2].as_str()) })
        } else if eq_ci_str(t0, "CALL") {
            proof {
                assert(mn_of(tv[0]) is MCall);
            }
            if toks.len() != 2 {
                return Err(crate::errors::ParseErrorKind::WrongOperandCount);
            }
            Ok(Instruction::Call { label: strip_commas_str(toks[1].as_str()) })
        } else if eq_ci_str(t0, "RET") || eq_ci_str(t0, "RETURN") {
            proof {
                assert(mn_of(tv[0]) is MReturn);
            }
            Ok(Instruction::Return)
        } else if eq_ci_str(t0, "CHECKPOINT") || eq_ci_str(t0, "CP") {
            proof {
                assert(mn_of(tv[0]) is MCheckpoint);
            }
            if toks.len() != 2 {
                return Err(crate::errors::ParseErrorKind::WrongOperandCount);
            }
            Ok(Instruction::Checkpoint { label: strip_commas_str(toks[1].as_str()) })
        } else if eq_ci_str(t0, "REWIND") || eq_ci_str(t0, "RW") {
            proof {
                assert(mn_of(tv[0]) is MRewind);
            }
            if toks.len() != 2 {
                return Err(crate::errors::ParseErrorKind::WrongOperandCount);
            }
            Ok(Instruction::Rewind { label: strip_commas_str(toks[1].as_str()) })
        } else if eq_ci_str(t0, "CMP") || eq_ci_str(t0, "COMPARE") {
            proof {
                assert(mn_of(tv[0]) is MCompare);
            }
            if toks.len() != 4 {
                return Err(crate::errors::ParseErrorKind::WrongOperandCount);
            }
            let dst = match self.parse_register(toks[1].as_str()) {
                Ok(v) => v,
                Err(e) => {
                    return Err(e);
                }
            };
            let src1 = match self.parse_register(toks[2].as_str()) {
                Ok(v) => v,
                Err(e) => {
                    return Err(e);
                }
            };
            let src2 = match self.parse_register(toks[3].as_str()) {
                Ok(v) => v,
                Err(e) => {
                    return Err(e);
                }
            };
            Ok(Instruction::Compare { dst, src1, src2 })
        } else if eq_ci_str(t0, "EQ") || eq_ci_str(t0, "EQUAL") {
            proof {
                assert(mn_of(tv[0]) is MEqual);
            }
            if toks.len() != 4 {
                return Err(crate::errors::ParseErrorKind::WrongOperandCount);
            }
            let dst = match self.parse_register(toks[1].as_str()) {
                Ok(v) => v,
                Err(e) => {
                    return Err(e);
                }
            };
            let src1 = match self.parse_register(toks[2].as_str()) {
                Ok(v) => v,
                Err(e) => {
                    return Err(e);
                }
            };
            let src2 = match self.parse_register(toks[3].as_str()) {
                Ok(v) => v,
                Err(e) => {
                    return Err(e);
                }
            };
            Ok(Instruction::Equal { dst, src1, src2 })
        } else if eq_ci_str(t0, "LT") || eq_ci_str(t0, "LESSTHAN") {
            proof {
                assert(mn_of(tv[0]) is MLessThan);
            }
            if toks.len() != 4 {
                return Err(crate::errors::ParseErrorKind::WrongOperandCount);
            }
            let dst = match self.parse_register(toks[1].as_str()) {
                Ok(v) => v,
                Err(e) => {
                    return Err(e);
                }
            };
            let src1 = match self.parse_register(toks[2].as_str()) {
                Ok(v) => v,
                Err(e) => {
                    return Err(e);
                }
            };
            let src2 = match self.parse_register(toks[3].as_str()) {
                Ok(v) => v,
                Err(e) => {
                    return Err(e);
                }
            };
            Ok(Instruction::LessThan { dst, src1, src2 })
        } else if eq_ci_str(t0, "HALT") {
            proof {
                assert(mn_of(tv[0]) is MHalt);
            }
            Ok(Instruction::Halt)
        } else if eq_ci_str(t0, "NOP") {
            proof {
                assert(mn_of(tv[0]) is MNop);
            }
            Ok(Instruction::Nop)
        } else if eq_ci_str(t0, "DEBUG") {
            proof {
                assert(mn_of(tv[0]) is MDebug);
            }
            Ok(Instruction::Debug { message: self.join_message(toks) })
        } else {
            proof {
                assert(mn_of(tv[0]) is MUnknown);
            }
            Err(crate::errors::ParseErrorKind::UnknownMnemonic)
        }
    }

    /// Parse a source text: collect the labels, then the instructions.
    /// On failure the error carries the one-based number of the first
    /// line that does not parse; the labels are collected either way.
    pub fn parse(&mut self, source: &str) -> (r: Result<Vec<Instruction>, crate::errors::ParseError>)
        requires
            old(self).inv(),
        ensures
            final(self).inv(),
            final(self).label_map() == lbl_scan(split_lines(source@), 0, old(self).label_map()),
            (match r {
                Ok(insts) => first_bad(split_lines(source@), 1) is None && insts@.len()
                    == inst_lines(split_lines(source@)).len() && (forall|k: int|
                    0 <= k < insts@.len() ==> inst_match(
                        #[trigger] insts@[k],
                        inst_lines(split_lines(source@))[k],
                    )),
                Err(pe) => first_bad(split_lines(source@), 1) == Some(
                    (pe.line as int, pe.kind),
                ),
            }),
    {
        let lines = split_lines_exec(source);
        let ghost lv = split_lines(source@);
        let ghost acc0 = assoc_map(self.labels@);
        self.current_position = 0;
        proof {
            assert(lv.skip(0) =~= lv);
            assert(lines@.len() == lines@.map_values(|l: Vec<char>| l@).len());
        }
        let mut ln: usize = 0;
        while ln < lines.len()
            invariant
                keys_unique(self.labels@),
                lines@.map_values(|l: Vec<char>| l@) == lv,
                lv == split_lines(source@),
                lines@.len() == lv.len(),
                0 <= ln <= lv.len(),
                acc0 == old(self).label_map(),
                lbl_scan(lv.skip(ln as int), self.current_position, assoc_map(self.labels@))
                    == lbl_scan(lv, 0, acc0),
            decreases lv.len() - ln,
        {
            let line = &lines[ln];
            proof {
                assert(line@ == lv[ln as int]);
                assert(lv.skip(ln as int)[0] == lv[ln as int]);
                assert(lv.skip(ln as int).skip(1) =~= lv.skip(ln as int + 1));
            }
            let (a, b) = clean_bounds(line);
            if a == b {
            } else if line[b - 1] == ':' {
                let mut b2 = b;
                while b2 > a && line[b2 - 1] == ':'
                    invariant
                        a <= b2 <= b <= line@.len(),
                        line@ == lv[ln as int],
                        clean_line(lv[ln as int]) == line@.subrange(a as int, b as int),
                        forall|j: int| b2 <= j < b ==> line@[j] == ':',
                    decreases b2,
                {
                    b2 -= 1;
                }
                proof {
                    let cl = line@.subrange(a as int, b as int);
                    assert(forall|j: int| b2 - a <= j < cl.len() ==> cl[j] == ':');
                    if b2 > a {
                        assert(cl[b2 - a - 1] == line@[b2 - 1]);
                    }
                    lemma_strip_colons_take(cl, b2 as int - a as int);
                    assert(cl.take(b2 as int - a as int) =~= line@.subrange(
                        a as int,
                        b2 as int,
                    ));
                }
                let name = chars_to_string(line, a, b2);
                let pos = self.current_position;
                crate::names::assoc_set(&mut self.labels, name, pos);
            } else {
                self.current_position = self.current_position.wrapping_add(1);
            }
            ln += 1;
        }
        proof {
            assert(lv.skip(lv.len() as int) =~= Seq::<Seq<char>>::empty());
            assert(assoc_map(self.labels@) == lbl_scan(lv, 0, acc0));
            assert(lv.skip(0) =~= lv);
        }
        let mut out: Vec<Instruction> = Vec::new();
        let ghost mut done: Seq<Seq<Seq<char>>> = Seq::empty();
        proof {
            assert(Seq::<Seq<Seq<char>>>::empty() + inst_lines(lv) =~= inst_lines(lv));
        }
        let mut ln2: usize = 0;
        while ln2 < lines.len()
            invariant
                keys_unique(self.labels@),
                acc0 == old(self).label_map(),
                assoc_map(self.labels@) == lbl_scan(lv, 0, acc0),
                lines@.map_values(|l: Vec<char>| l@) == lv,
                lv == split_lines(source@),
                lines@.len() == lv.len(),
                0 <= ln2 <= lv.len(),
                first_bad(lv, 1) == first_bad(lv.skip(ln2 as int), ln2 as int + 1),
                inst_lines(lv) == done + inst_lines(lv.skip(ln2 as int)),
                done.len() == out@.len(),
                forall|k: int| 0 <= k < out@.len() ==> inst_match(#[trigger] out@[k], done[k]),
            decreases lv.len() - ln2,
        {
            let line = &lines[ln2];
            proof {
                assert(line@ == lv[ln2 as int]);
                assert(lv.skip(ln2 as int)[0] == lv[ln2 as int]);
                assert(lv.skip(ln2 as int).skip(1) =~= lv.skip(ln2 as int + 1));
            }
            let (a, b) = clean_bounds(line);
            if a == b {
            } else if line[b - 1] == ':' {
            } else {
                let toks = tokenize_range(line, a, b);
                proof {
                    assert(tokens_of(lv[ln2 as int]) == tok_scan(
                        line@.subrange(a as int, b as int),
                        Seq::empty(),
                    ));
                    let cl = line@.subrange(a as int, b as int);
                    assert(!is_ws(cl[0])) by {
                        assert(cl == trim_back(trim_front(strip_comment(line@))));
                        lemma_clean_no_edge_ws(line@);
                    }
                    lemma_tok_scan_len(cl, Seq::empty());
                }
                match self.parse_instruction(&toks) {
                    Ok(inst) => {
                        let ghost tvl = tokens_of(lv[ln2 as int]);
                        out.push(inst);
                        proof {
                            done = done.push(tvl);
                            assert(inst_lines(lv.skip(ln2 as int)) == seq![tvl] + inst_lines(
                                lv.skip(ln2 as int + 1),
                            ));
                            assert((done.drop_last().push(tvl)) + inst_lines(
                                lv.skip(ln2 as int + 1),
                            ) =~= done.drop_last() + (seq![tvl] + inst_lines(
                                lv.skip(ln2 as int + 1),
                            )));
                        }
                    }
                    Err(k) => {
                        return Err(crate::errors::ParseError { line: ln2 + 1, kind: k });
                    }
                }
            }
            ln2 += 1;
        }
        proof {
            assert(lv.skip(lv.len() as int) =~= Seq::<Seq<char>>::empty());
            assert(inst_lines(lv) =~= done);
        }
        Ok(out)
    }
}

/// A non-blank cleaned line neither starts nor ends with whitespace.
proof fn lemma_clean_no_edge_ws(s: Seq<char>)
    requires
        clean_line(s).len() > 0,
    ensures
        !is_ws(clean_line(s)[0]),
        !is_ws(clean_line(s).last()),
{
    lemma_trim_front_no_ws(strip_comment(s));
    lemma_trim_back_no_ws(trim_front(strip_comment(s)));
}

/// Trimming the front leaves no leading whitespace.
proof fn lemma_trim_front_no_ws(s: Seq<char>)
    ensures
        trim_front(s).len() > 0 ==> !is_ws(trim_front(s)[0]),
        trim_back(trim_front(s)).len() > 0 ==> !is_ws(trim_back(trim_front(s))[0]),
    decreases s.len(),
{
    if s.len() > 0 && is_ws(s[0]) {
        lemma_trim_front_no_ws(s.skip(1));
    } else {
        lemma_trim_back_front(s);
    }
}

/// Trimming the back keeps the first character if anything remains.
proof fn lemma_trim_back_front(s: Seq<char>)
    ensures
        trim_back(s).len() > 0 ==> trim_back(s)[0] == s[0],
    decreases s.len(),
{
    if s.len() > 0 && is_ws(s.last()) {
        lemma_trim_back_front(s.drop_last());
    }
}

/// Trimming the back leaves no trailing whitespace.
proof fn lemma_trim_back_no_ws(s: Seq<char>)
    ensures
        trim_back(s).len() > 0 ==> !is_ws(trim_back(s).last()),
    decreases s.len(),
{
    if s.len() > 0 && is_ws(s.last()) {
        lemma_trim_back_no_ws(s.drop_last());
    }
}

/// The instruction index after scanning the lines, as the label pass
/// tracks it: one step per instruction line, wrapping as a signed
/// 64-bit counter.
pub open spec fn pos_after(lines: Seq<Seq<char>>, pos: i64) -> i64
    decreases lines.len(),
{
    if lines.len() == 0 {
        pos
    } else if is_blank(lines[0]) || is_label_line(lines[0]) {
        pos_after(lines.skip(1), pos)
    } else {
        pos_after(lines.skip(1), vstd::wrapping::i64_specs::wrapping_add(pos, 1))
    }
}

/// Lines that never define a label leave its binding alone.
proof fn lemma_lbl_scan_frame(
    lines: Seq<Seq<char>>,
    pos: i64,
    acc: Map<Seq<char>, i64>,
    l: Seq<char>,
)
    requires
        forall|j: int| 0 <= j < lines.len() ==> !(is_label_line(#[trigger] lines[j]) && label_of(
            lines[j],
        ) == l),
    ensures
        lbl_scan(lines, pos, acc).dom().contains(l) == acc.dom().contains(l),
        acc.dom().contains(l) ==> lbl_scan(lines, pos, acc)[l] == acc[l],
    decreases lines.len(),
{
    if lines.len() > 0 {
        assert(forall|j: int| 0 <= j < lines.skip(1).len() ==> lines.skip(1)[j] == lines[j + 1]);
        if is_blank(lines[0]) {
            lemma_lbl_scan_frame(lines.skip(1), pos, acc, l);
        } else if is_label_line(lines[0]) {
            assert(label_of(lines[0]) != l);
            lemma_lbl_scan_frame(lines.skip(1), pos, acc.insert(label_of(lines[0]), pos), l);
        } else {
            lemma_lbl_scan_frame(
                lines.skip(1),
                vstd::wrapping::i64_specs::wrapping_add(pos, 1),
                acc,
                l,
            );
        }
    }
}

/// The binding a label line creates survives when no later line defines
/// the same label: it is the position counter at that line.
proof fn lemma_lbl_scan_at(lines: Seq<Seq<char>>, i: int, pos: i64, acc: Map<Seq<char>, i64>)
    requires
        0 <= i < lines.len(),
        is_label_line(lines[i]),
        forall|j: int| i < j < lines.len() ==> !(is_label_line(#[trigger] lines[j]) && label_of(
            lines[j],
        ) == label_of(lines[i])),
    ensures
        lbl_scan(lines, pos, acc).dom().contains(label_of(lines[i])),
        lbl_scan(lines, pos, acc)[label_of(lines[i])] == pos_after(lines.take(i), pos),
    decreases lines.len(),
{
    let l = label_of(lines[i]);
    assert(forall|j: int| 0 <= j < lines.skip(1).len() ==> lines.skip(1)[j] == lines[j + 1]);
    if i == 0 {
        assert(lines.take(0) =~= Seq::<Seq<char>>::empty());
        lemma_lbl_scan_frame(lines.skip(1), pos, acc.insert(l, pos), l);
    } else {
        assert(lines.take(i).skip(1) =~= lines.skip(1).take(i - 1));
        assert(lines.take(i)[0] == lines[0]);
        assert(lines.skip(1)[i - 1] == lines[i]);
        if is_blank(lines[0]) {
            lemma_lbl_scan_at(lines.skip(1), i - 1, pos, acc);
        } else if is_label_line(lines[0]) {
            lemma_lbl_scan_at(lines.skip(1), i - 1, pos, acc.insert(label_of(lines[0]), pos));
        } else {
            lemma_lbl_scan_at(
                lines.skip(1),
                i - 1,
                vstd::wrapping::i64_specs::wrapping_add(pos, 1),
                acc,
            );
        }
    }
}

/// An instruction count is never negative.
proof fn lemma_inst_count_nonneg(lines: Seq<Seq<char>>)
    ensures
        inst_count(lines) >= 0,
    decreases lines.len(),
{
    if lines.len() > 0 {
        lemma_inst_count_nonneg(lines.skip(1));
    }
}

/// While it fits the signed 64-bit counter, the position after a scan is
/// the start plus the number of instruction lines.
proof fn lemma_pos_after_count(lines: Seq<Seq<char>>, pos: i64)
    requires
        0 <= pos,
        pos + inst_count(lines) <= i64::MAX,
    ensures
        pos_after(lines, pos) == pos + inst_count(lines),
    decreases lines.len(),
{
    if lines.len() > 0 {
        lemma_inst_count_nonneg(lines.skip(1));
        if is_blank(lines[0]) || is_label_line(lines[0]) {
            lemma_pos_after_count(lines.skip(1), pos);
        } else {
            lemma_pos_after_count(lines.skip(1), vstd::wrapping::i64_specs::wrapping_add(pos, 1));
        }
    }
}

/// Instruction-index labels: after parsing, a label's recorded index
/// equals the count of non-blank, non-comment, non-label lines that
/// precede its definition — for the definition that wins, the last one,
/// and as long as that count fits a signed 64-bit instruction index.
pub proof fn lemma_instruction_index_labels(
    src: Seq<char>,
    i: int,
    acc: Map<Seq<char>, i64>,
)
    requires
        0 <= i < split_lines(src).len(),
        is_label_line(split_lines(src)[i]),
        forall|j: int| i < j < split_lines(src).len() ==> !(is_label_line(
            #[trigger] split_lines(src)[j],
        ) && label_of(split_lines(src)[j]) == label_of(split_lines(src)[i])),
        inst_count(split_lines(src).take(i)) <= i64::MAX,
    ensures
        lbl_scan(split_lines(src), 0, acc).dom().contains(label_of(split_lines(src)[i])),
        lbl_scan(split_lines(src), 0, acc)[label_of(split_lines(src)[i])] == inst_count(
            split_lines(src).take(i),
        ),
{
    lemma_lbl_scan_at(split_lines(src), i, 0, acc);
    lemma_inst_count_nonneg(split_lines(src).take(i));
    lemma_pos_after_count(split_lines(src).take(i), 0);
}

} // verus!
