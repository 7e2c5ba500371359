//! The interpreter: execution, reversal, checkpoints, and whole programs.

use palindrome_vm::Instruction;
use palindrome_vm::Parser;
use palindrome_vm::VmError;
use palindrome_vm::VM;

/// Drive a parsed program until it halts, leaves the code, or fails.
fn run(vm: &mut VM, instructions: &[Instruction]) -> Result<(), VmError> {
    let mut steps = 0;
    while vm.ip >= 0 && (vm.ip as usize) < instructions.len() {
        match vm.execute(instructions[vm.ip as usize].clone()) {
            Ok(()) => {}
            Err(VmError::Halt) => return Ok(()),
            Err(e) => return Err(e),
        }
        steps += 1;
        assert!(steps < 10_000, "program ran away");
    }
    Ok(())
}

fn assemble(src: &str) -> (VM, Vec<Instruction>) {
    let mut parser = Parser::new();
    let instructions = parser.parse(src).unwrap();
    let mut vm = VM::new();
    for (name, pos) in parser.labels().iter() {
        vm.define_symbol(name.clone(), *pos);
    }
    vm.load_program(instructions.clone()).unwrap();
    (vm, instructions)
}

#[test]
fn lib_test_vm_creation() {
    let vm = VM::new();
    assert_eq!(vm.ip, 0);
}

#[test]
fn executor_test_vm_creation() {
    let vm = VM::new();
    assert_eq!(vm.ip, 0);
    assert_eq!(vm.sp, 1024 * 1024);
    assert_eq!(vm.current_timeline, "main");
}

#[test]
fn test_arithmetic_operations() {
    let mut vm = VM::new();

    vm.execute(Instruction::LoadImm { reg: 0, value: 10 }).unwrap();
    vm.execute(Instruction::LoadImm { reg: 1, value: 20 }).unwrap();

    vm.execute(Instruction::IAdd { dst: 2, src1: 0, src2: 1 }).unwrap();

    assert_eq!(vm.registers.read(2).unwrap(), 30);
}

#[test]
fn test_stack_operations() {
    let mut vm = VM::new();

    vm.execute(Instruction::LoadImm { reg: 0, value: 42 }).unwrap();
    vm.execute(Instruction::Push { reg: 0 }).unwrap();

    vm.execute(Instruction::LoadImm { reg: 1, value: 100 }).unwrap();
    vm.execute(Instruction::Push { reg: 1 }).unwrap();

    vm.execute(Instruction::Pop { reg: 2 }).unwrap();
    assert_eq!(vm.registers.read(2).unwrap(), 100);

    vm.execute(Instruction::Pop { reg: 3 }).unwrap();
    assert_eq!(vm.registers.read(3).unwrap(), 42);
}

#[test]
fn test_reversibility() {
    let mut vm = VM::new();

    vm.execute(Instruction::LoadImm { reg: 0, value: 10 }).unwrap();
    vm.execute(Instruction::LoadImm { reg: 1, value: 20 }).unwrap();
    vm.execute(Instruction::IAdd { dst: 2, src1: 0, src2: 1 }).unwrap();

    assert_eq!(vm.registers.read(2).unwrap(), 30);

    vm.reverse_last().unwrap();
    assert_eq!(vm.registers.read(2).unwrap(), 0);

    vm.reverse_last().unwrap();
    assert_eq!(vm.registers.read(1).unwrap(), 0);
}

#[test]
fn test_arithmetic_and_reverse() {
    let (mut vm, instructions) = assemble("LI R0, 10\nLI R1, 20\nIADD R2, R0, R1\nHALT");
    run(&mut vm, &instructions).unwrap();
    assert_eq!(vm.registers.read(2).unwrap(), 30);
    assert!(!vm.registers.flags.zero);
    assert!(!vm.registers.flags.negative);
    // the frame for HALT stays; undo it and the addition
    vm.reverse_last().unwrap();
    vm.reverse_last().unwrap();
    assert_eq!(vm.registers.read(2).unwrap(), 0);
    assert_eq!(vm.history.stack.len(), 2);
}

#[test]
fn test_full_reversal_restores_everything() {
    let mut vm = VM::new();
    let trail0 = vm.tape.tape.trail_len();
    let sp0 = vm.sp;
    vm.execute(Instruction::LoadImm { reg: 0, value: 7 }).unwrap();
    vm.execute(Instruction::Push { reg: 0 }).unwrap();
    vm.execute(Instruction::TapeMark { label: "spot".to_string() }).unwrap();
    vm.execute(Instruction::TapeWrite { reg: 0, len: 8 }).unwrap();
    while !vm.history.stack.is_empty() {
        vm.reverse_last().unwrap();
    }
    assert_eq!(vm.ip, 0);
    assert_eq!(vm.sp, sp0);
    assert_eq!(vm.fp, sp0);
    assert_eq!(vm.tape.tape.trail_len(), trail0);
    assert_eq!(vm.tape.tape.position(), 0);
    assert_eq!(vm.tape.tape.get_mark("spot"), None);
    for r in 0..16 {
        assert_eq!(vm.registers.read(r).unwrap(), 0);
    }
    assert_eq!(vm.reverse_last(), Err(VmError::HistoryExhausted));
}

#[test]
fn test_journal_monotonicity() {
    let mut vm = VM::new();
    let mut last = vm.tape.tape.trail_len();
    let program = [
        Instruction::LoadImm { reg: 0, value: 65 },
        Instruction::TapeWrite { reg: 0, len: 1 },
        Instruction::TapeAdvance { delta: 3 },
        Instruction::Push { reg: 0 },
        Instruction::Nop,
    ];
    for inst in program.iter() {
        vm.execute(inst.clone()).unwrap();
        let now = vm.tape.tape.trail_len();
        assert!(now >= last);
        last = now;
    }
    while !vm.history.stack.is_empty() {
        let before = vm.tape.tape.trail_len();
        vm.reverse_last().unwrap();
        assert!(vm.tape.tape.trail_len() <= before);
    }
}

#[test]
fn test_checkpoint_rewind_program() {
    let (mut vm, instructions) = assemble(
        "LI R0, 0x41\nCP start\nTAPEWRITE R0 1\nTAPEADVANCE 3\nTAPEWRITE R0 1\nRW start\nHALT",
    );
    // run up to and including the rewind
    for _ in 0..6 {
        let inst = instructions[vm.ip as usize].clone();
        vm.execute(inst).unwrap();
    }
    assert_eq!(vm.tape.tape.position(), 0);
    assert_eq!(vm.tape.tape.read(6), vec![0, 0, 0, 0, 0, 0]);
    // execution resumes right after the checkpoint instruction (index 1)
    assert_eq!(vm.ip, 2);
}

#[test]
fn test_branch_on_zero() {
    let (mut vm, instructions) = assemble("LI R0, 0\nBZ R0, done\nLI R1, 99\ndone:\nHALT");
    run(&mut vm, &instructions).unwrap();
    assert_eq!(vm.registers.read(1).unwrap(), 0);
}

#[test]
fn test_call_return_frame_conservation() {
    let (mut vm, instructions) = assemble("LI R0, 7\nCALL fn\nHALT\nfn:\nLI R0, 8\nRET");
    let sp0 = vm.sp;
    let fp0 = vm.fp;
    run(&mut vm, &instructions).unwrap();
    assert_eq!(vm.registers.read(0).unwrap(), 8);
    assert_eq!(vm.sp, sp0);
    assert_eq!(vm.fp, fp0);
    assert_eq!(vm.ip, 2);
    assert!(matches!(instructions[vm.ip as usize], Instruction::Halt));
}

#[test]
fn test_xor_twice_restores_register() {
    let mut vm = VM::new();
    vm.execute(Instruction::LoadImm { reg: 0, value: 29 }).unwrap();
    vm.execute(Instruction::LoadImm { reg: 1, value: -77 }).unwrap();
    vm.execute(Instruction::IXor { dst: 0, src1: 0, src2: 1 }).unwrap();
    vm.execute(Instruction::IXor { dst: 0, src1: 0, src2: 1 }).unwrap();
    assert_eq!(vm.registers.read(0).unwrap(), 29);
}

#[test]
fn test_push_pop_duality() {
    let mut vm = VM::new();
    let sp0 = vm.sp;
    vm.execute(Instruction::LoadImm { reg: 4, value: -123456789 }).unwrap();
    vm.execute(Instruction::Push { reg: 4 }).unwrap();
    vm.execute(Instruction::LoadImm { reg: 4, value: 0 }).unwrap();
    vm.execute(Instruction::Pop { reg: 4 }).unwrap();
    assert_eq!(vm.registers.read(4).unwrap(), -123456789);
    assert_eq!(vm.sp, sp0);
}

#[test]
fn test_execute_errors() {
    let mut vm = VM::new();
    assert_eq!(
        vm.execute(Instruction::LoadImm { reg: 16, value: 0 }),
        Err(VmError::InvalidRegister)
    );
    assert_eq!(
        vm.execute(Instruction::Jump { label: "nowhere".to_string() }),
        Err(VmError::UnknownLabel)
    );
    assert_eq!(
        vm.execute(Instruction::TapeSeekMark { label: "nowhere".to_string() }),
        Err(VmError::UnknownMark)
    );
    assert_eq!(
        vm.execute(Instruction::Rewind { label: "nowhere".to_string() }),
        Err(VmError::UnknownCheckpoint)
    );
    assert_eq!(
        vm.execute(Instruction::Swap { reg1: 0, reg2: 1 }),
        Err(VmError::UnimplementedInstruction)
    );
    assert_eq!(vm.execute(Instruction::Halt), Err(VmError::Halt));
    // every failed dispatch left its frame for the operator to reverse
    assert_eq!(vm.history.stack.len(), 6);
}

#[test]
fn test_load_store_roundtrip() {
    let mut vm = VM::new();
    vm.execute(Instruction::LoadImm { reg: 0, value: 0x1122334455667788 }).unwrap();
    vm.execute(Instruction::LoadImm { reg: 1, value: 0x200000 }).unwrap();
    vm.execute(Instruction::Store { addr: 1, reg: 0 }).unwrap();
    vm.execute(Instruction::Load { reg: 2, addr: 1 }).unwrap();
    assert_eq!(vm.registers.read(2).unwrap(), 0x1122334455667788);
}

#[test]
fn test_debug_goes_to_sink() {
    let mut vm = VM::new();
    vm.execute(Instruction::Debug { message: "hello".to_string() }).unwrap();
    assert_eq!(vm.debug_log.len(), 1);
    assert_eq!(vm.debug_log[0], "hello");
}

#[test]
fn test_rewind_n_instruction() {
    let mut vm = VM::new();
    vm.execute(Instruction::LoadImm { reg: 0, value: 5 }).unwrap();
    vm.execute(Instruction::LoadImm { reg: 1, value: 9 }).unwrap();
    // undo the load of R1: one step for this frame, one for the load
    vm.execute(Instruction::LoadImm { reg: 2, value: 2 }).unwrap();
    vm.execute(Instruction::RewindN { steps: 2 }).unwrap();
    assert_eq!(vm.registers.read(2).unwrap(), 0);
    assert_eq!(vm.registers.read(1).unwrap(), 9);
}
