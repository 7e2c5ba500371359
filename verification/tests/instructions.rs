//! Instruction introspection: inverses, statefulness, branches.

use palindrome_vm::Instruction;

#[test]
fn test_inverse_operations() {
    let add = Instruction::RAdd { src1: 0, src2: 1, dst: 2 };
    let inv = add.inverse().unwrap();

    match inv {
        Instruction::RSub { src1, src2, dst } => {
            assert_eq!(src1, 0);
            assert_eq!(src2, 1);
            assert_eq!(dst, 2);
        }
        _ => panic!("Wrong inverse operation"),
    }
}

#[test]
fn test_self_inverse() {
    let xor = Instruction::RXor { src: 0, dst: 1 };
    let inv = xor.inverse().unwrap();

    match (&xor, &inv) {
        (Instruction::RXor { .. }, Instruction::RXor { .. }) => {
            assert!(matches!(inv, Instruction::RXor { src: 0, dst: 1 }));
        }
        _ => panic!("XOR should be self-inverse"),
    }
}

#[test]
fn test_stateful_check() {
    assert!(Instruction::RAdd { src1: 0, src2: 1, dst: 2 }.is_stateful());
    assert!(!Instruction::Nop.is_stateful());
    assert!(!Instruction::Compare { dst: 0, src1: 1, src2: 2 }.is_stateful());
}

#[test]
fn test_branch_check() {
    assert!(Instruction::Jump { label: "test".to_string() }.is_branch());
    assert!(Instruction::Call { label: "func".to_string() }.is_branch());
    assert!(!Instruction::RAdd { src1: 0, src2: 1, dst: 2 }.is_branch());
}

#[test]
fn test_push_pop_inverse_pair() {
    let push = Instruction::Push { reg: 3 };
    assert!(matches!(push.inverse(), Some(Instruction::Pop { reg: 3 })));
    let pop = Instruction::Pop { reg: 3 };
    assert!(matches!(pop.inverse(), Some(Instruction::Push { reg: 3 })));
    let adv = Instruction::TapeAdvance { delta: 5 };
    assert!(matches!(adv.inverse(), Some(Instruction::TapeAdvance { delta: -5 })));
    assert!(Instruction::Return.inverse().is_none());
}

#[test]
fn test_sizes() {
    assert_eq!(Instruction::Nop.size(), 1);
    assert_eq!(Instruction::LoadImm { reg: 0, value: 1 }.size(), 10);
    assert_eq!(Instruction::RXor { src: 0, dst: 1 }.size(), 3);
    assert_eq!(Instruction::Jump { label: "x".to_string() }.size(), 8);
}
