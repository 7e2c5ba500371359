//! The register file and its flags.

use palindrome_vm::RegisterFile;

#[test]
fn test_register_read_write() {
    let mut regs = RegisterFile::new();

    regs.write(0, 42).unwrap();
    assert_eq!(regs.read(0).unwrap(), 42);

    regs.write(15, -100).unwrap();
    assert_eq!(regs.read(15).unwrap(), -100);
}

#[test]
fn test_invalid_register() {
    let mut regs = RegisterFile::new();

    assert!(regs.write(16, 0).is_err());
    assert!(regs.read(16).is_err());
}

#[test]
fn test_flags() {
    let mut regs = RegisterFile::new();

    regs.update_flags(0);
    assert!(regs.flags.zero);
    assert!(!regs.flags.negative);

    regs.update_flags(-42);
    assert!(!regs.flags.zero);
    assert!(regs.flags.negative);
}

#[test]
fn test_condition_code() {
    let mut regs = RegisterFile::new();
    regs.update_flags(0);
    assert_eq!(regs.flags.condition_code(), 1);
    regs.update_flags(-1);
    assert_eq!(regs.flags.condition_code(), 8);
    regs.update_flags(7);
    assert_eq!(regs.flags.condition_code(), 0);
}

#[test]
fn test_reset() {
    let mut regs = RegisterFile::new();
    regs.write(3, 9).unwrap();
    regs.update_flags(-1);
    regs.reset();
    assert_eq!(regs.read(3).unwrap(), 0);
    assert!(!regs.flags.negative);
}
