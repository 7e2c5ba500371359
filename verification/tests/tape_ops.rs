//! The tape substrate: reads, writes, motion, marks, and rewinds.

use palindrome_vm::Tape;

#[test]
fn test_basic_read_write() {
    let mut tape = Tape::new();
    tape.write(&[42, 43, 44]);
    tape.seek(0);
    assert_eq!(tape.read(3), vec![42, 43, 44]);
}

#[test]
fn test_advance_and_write() {
    let mut tape = Tape::new();
    tape.write(&[1]);
    tape.advance(1);
    tape.write(&[2]);
    tape.advance(-1);
    assert_eq!(tape.read(1), vec![1]);
    tape.advance(1);
    assert_eq!(tape.read(1), vec![2]);
}

#[test]
fn test_rewind() {
    let mut tape = Tape::new();
    tape.write(&[10]);
    tape.advance(1);
    tape.write(&[20]);

    tape.rewind_n(2);
    assert_eq!(tape.read(1), vec![10]);
    assert_eq!(tape.position(), 0);
}

#[test]
fn test_checkpoint_rewind() {
    let mut tape = Tape::new();
    tape.checkpoint("start".to_string());

    tape.write(&[1, 2, 3]);
    tape.advance(3);
    tape.write(&[4, 5, 6]);

    tape.rewind("start").unwrap();
    assert_eq!(tape.position(), 0);
    assert_eq!(tape.read(6), vec![0, 0, 0, 0, 0, 0]);
}

#[test]
fn test_marks() {
    let mut tape = Tape::new();
    tape.write(&[1, 2, 3]);
    tape.mark("data_start".to_string());
    tape.advance(10);
    tape.write(&[4, 5, 6]);

    tape.seek_mark("data_start").unwrap();
    assert_eq!(tape.read(3), vec![1, 2, 3]);
}

#[test]
fn test_large_write_spanning_pages() {
    let mut tape = Tape::new();
    let data: Vec<u8> = (0..8192).map(|i| (i % 256) as u8).collect();

    tape.write(&data);
    tape.seek(0);
    assert_eq!(tape.read(8192), data);
}

#[test]
fn test_fresh_tape_reads_zero() {
    let tape = Tape::new();
    assert_eq!(tape.read(16), vec![0; 16]);
    let mut far = Tape::new();
    far.seek(-5000);
    assert_eq!(far.read(4), vec![0, 0, 0, 0]);
}

#[test]
fn test_unknown_mark_and_checkpoint() {
    let mut tape = Tape::new();
    assert_eq!(tape.seek_mark("nowhere"), Err(palindrome_vm::VmError::UnknownMark));
    assert_eq!(tape.rewind("nowhere"), Err(palindrome_vm::VmError::UnknownCheckpoint));
}

#[test]
fn test_negative_positions() {
    let mut tape = Tape::new();
    tape.seek(-4096);
    tape.write(&[7, 8, 9]);
    tape.seek(-4096);
    assert_eq!(tape.read(3), vec![7, 8, 9]);
    tape.rewind_n(3);
    assert_eq!(tape.position(), 0);
    tape.seek(-4096);
    assert_eq!(tape.read(3), vec![0, 0, 0]);
}

#[test]
fn test_trail_grows_and_rewinds() {
    let mut tape = Tape::new();
    assert_eq!(tape.trail_len(), 0);
    tape.write(&[1]);
    assert_eq!(tape.trail_len(), 1);
    tape.seek(5);
    assert_eq!(tape.trail_len(), 2);
    tape.mark("m".to_string());
    assert_eq!(tape.trail_len(), 3);
    tape.rewind_n(3);
    assert_eq!(tape.trail_len(), 0);
    assert_eq!(tape.get_mark("m"), None);
    assert_eq!(tape.position(), 0);
    assert_eq!(tape.read(1), vec![0]);
}
