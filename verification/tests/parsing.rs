//! The assembly parser.

use palindrome_vm::Instruction;
use palindrome_vm::ParseErrorKind;
use palindrome_vm::Parser;

#[test]
fn test_parse_simple_program() {
    let mut parser = Parser::new();
    let program = r#"
        ; Simple test program
        LI R0, 10
        LI R1, 20
        IADD R2, R0, R1
        HALT
    "#;

    let instructions = parser.parse(program).unwrap();
    assert_eq!(instructions.len(), 4);

    match &instructions[0] {
        Instruction::LoadImm { reg, value } => {
            assert_eq!(*reg, 0);
            assert_eq!(*value, 10);
        }
        _ => panic!("Wrong instruction"),
    }
}

#[test]
fn test_parse_with_labels() {
    let mut parser = Parser::new();
    let program = r#"
    main:
        LI R0, 0
    loop:
        LI R1, 1
        IADD R0, R0, R1
        BNZ R0, loop
        HALT
    "#;

    let instructions = parser.parse(program).unwrap();
    assert_eq!(instructions.len(), 5);

    assert_eq!(parser.get_label("main"), Some(0));
    assert_eq!(parser.get_label("loop"), Some(1));
}

#[test]
fn test_parse_hex_immediates() {
    let mut parser = Parser::new();
    let program = "LI R0, 0xFF";

    let instructions = parser.parse(program).unwrap();
    match &instructions[0] {
        Instruction::LoadImm { reg, value } => {
            assert_eq!(*reg, 0);
            assert_eq!(*value, 255);
        }
        _ => panic!("Wrong instruction"),
    }
}

#[test]
fn test_label_indices_count_instructions() {
    let mut parser = Parser::new();
    let program = "  ; comment only\n\nLI R0, 1\nNOP\nhere:\nHALT\nafter:\n";
    parser.parse(program).unwrap();
    assert_eq!(parser.get_label("here"), Some(2));
    assert_eq!(parser.get_label("after"), Some(3));
}

#[test]
fn test_parse_errors() {
    let mut parser = Parser::new();
    let e = parser.parse("FROB R0").unwrap_err();
    assert_eq!(e.line, 1);
    assert_eq!(e.kind, ParseErrorKind::UnknownMnemonic);

    let e = parser.parse("NOP\nIADD R0 R1").unwrap_err();
    assert_eq!(e.line, 2);
    assert_eq!(e.kind, ParseErrorKind::WrongOperandCount);

    let e = parser.parse("IADD R0 R22 R1").unwrap_err();
    assert_eq!(e.kind, ParseErrorKind::BadRegister);

    let e = parser.parse("LI R0 money").unwrap_err();
    assert_eq!(e.kind, ParseErrorKind::BadImmediate);

    let e = parser.parse("TAPEREAD R0 999").unwrap_err();
    assert_eq!(e.kind, ParseErrorKind::BadByte);
}

#[test]
fn test_parse_aliases_and_case() {
    let mut parser = Parser::new();
    let instructions = parser.parse("jmp out\ncp here\nrw here\nret").unwrap();
    assert!(matches!(&instructions[0], Instruction::Jump { label } if label == "out"));
    assert!(matches!(&instructions[1], Instruction::Checkpoint { label } if label == "here"));
    assert!(matches!(&instructions[2], Instruction::Rewind { label } if label == "here"));
    assert!(matches!(&instructions[3], Instruction::Return));
}

#[test]
fn test_parse_negative_and_marked_immediates() {
    let mut parser = Parser::new();
    let instructions = parser.parse("LI R1, #-42\nTAPEADVANCE -3\nLI R2, 0x10,").unwrap();
    assert!(matches!(&instructions[0], Instruction::LoadImm { reg: 1, value: -42 }));
    assert!(matches!(&instructions[1], Instruction::TapeAdvance { delta: -3 }));
    assert!(matches!(&instructions[2], Instruction::LoadImm { reg: 2, value: 16 }));
}

#[test]
fn test_parse_debug_message() {
    let mut parser = Parser::new();
    let instructions = parser.parse("DEBUG tape state here").unwrap();
    assert!(matches!(&instructions[0], Instruction::Debug { message } if message == "tape state here"));
}
