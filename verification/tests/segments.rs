//! Named segments: allocation, bounds, and schemas.

use palindrome_vm::segment::DataType;
use palindrome_vm::segment::Field;
use palindrome_vm::segment::Schema;
use palindrome_vm::Segment;
use palindrome_vm::SegmentType;
use palindrome_vm::SegmentedTape;
use palindrome_vm::VmError;

#[test]
fn test_segment_creation() {
    let mut stape = SegmentedTape::new();

    let start = stape.create_segment("data".to_string(), 1024, SegmentType::Data).unwrap();

    assert_eq!(start, 0);
    assert!(stape.get_segment("data").is_some());
}

#[test]
fn test_segment_read_write() {
    let mut stape = SegmentedTape::new();

    stape.create_segment("data".to_string(), 1024, SegmentType::Data).unwrap();

    stape.write_segment("data", 0, b"Hello, World!").unwrap();

    let data = stape.read_segment("data", 0, 13).unwrap();
    assert_eq!(&data, b"Hello, World!");
}

#[test]
fn test_segment_bounds_checking() {
    let mut stape = SegmentedTape::new();

    stape.create_segment("small".to_string(), 10, SegmentType::Data).unwrap();

    assert!(stape.write_segment("small", 5, b"too long").is_err());

    assert!(stape.write_segment("small", 5, b"fits").is_ok());
}

#[test]
fn test_multiple_segments() {
    let mut stape = SegmentedTape::new();

    let code_start = stape.create_segment("code".to_string(), 1024, SegmentType::Code).unwrap();

    let data_start = stape.create_segment("data".to_string(), 2048, SegmentType::Data).unwrap();

    let stack_start = stape.create_segment("stack".to_string(), 4096, SegmentType::Stack).unwrap();

    assert!(data_start >= code_start + 1024);
    assert!(stack_start >= data_start + 2048);

    assert_eq!(stape.list_segments().len(), 3);
}

#[test]
fn test_segment_with_schema() {
    let mut stape = SegmentedTape::new();

    let schema = Schema {
        fields: vec![
            Field { name: "id".to_string(), dtype: DataType::Int64, nullable: false },
            Field {
                name: "name".to_string(),
                dtype: DataType::String { max_len: Some(64) },
                nullable: false,
            },
        ],
        primary_key: vec!["id".to_string()],
    };

    stape.create_segment("users".to_string(), 65536, SegmentType::Table { schema }).unwrap();

    if let Some(segment) = stape.get_segment("users") {
        matches!(segment.segment_type, SegmentType::Table { .. });
    } else {
        panic!("Segment not found");
    }
}

#[test]
fn test_duplicate_and_unknown_segment() {
    let mut stape = SegmentedTape::new();
    stape.create_segment("a".to_string(), 16, SegmentType::Data).unwrap();
    assert_eq!(
        stape.create_segment("a".to_string(), 16, SegmentType::Data),
        Err(VmError::DuplicateSegment)
    );
    assert_eq!(stape.read_segment("missing", 0, 1), Err(VmError::UnknownSegment));
    assert_eq!(stape.write_segment("missing", 0, b"x"), Err(VmError::UnknownSegment));
    assert_eq!(stape.read_segment("a", -1, 1), Err(VmError::SegmentBounds));
}

#[test]
fn test_segments_never_overlap() {
    let mut stape = SegmentedTape::new();
    stape.create_segment("one".to_string(), 100, SegmentType::Data).unwrap();
    stape.create_segment("two".to_string(), 200, SegmentType::Data).unwrap();
    stape.create_segment("three".to_string(), 50, SegmentType::Data).unwrap();
    let segs: Vec<&Segment> = stape.list_segments();
    for i in 0..segs.len() {
        for j in 0..segs.len() {
            if i != j {
                let a = segs[i];
                let b = segs[j];
                assert!(
                    a.start + a.size as i64 <= b.start || b.start + b.size as i64 <= a.start
                );
            }
        }
    }
}

#[test]
fn test_segment_write_journals_and_rewinds() {
    let mut stape = SegmentedTape::new();
    stape.create_segment("d".to_string(), 64, SegmentType::Data).unwrap();
    let before = stape.tape.trail_len();
    stape.write_segment("d", 8, b"abc").unwrap();
    assert!(stape.tape.trail_len() > before);
    stape.rewind_n(stape.tape.trail_len() - before);
    // the write is undone; the segment's own creation entry survived
    assert_eq!(stape.read_segment("d", 8, 3).unwrap(), vec![0, 0, 0]);
    assert!(stape.get_segment("d").is_some());
}

#[test]
fn test_rewind_removes_created_segment() {
    let mut stape = SegmentedTape::new();
    stape.create_segment("a".to_string(), 16, SegmentType::Data).unwrap();
    assert!(stape.get_segment("a").is_some());
    // popping the SegmentCreate entry removes the segment itself
    stape.rewind_n(1);
    assert!(stape.get_segment("a").is_none());
    assert_eq!(stape.list_segments().len(), 0);
    assert_eq!(stape.tape.trail_len(), 0);
}

#[test]
fn test_rewind_to_checkpoint_removes_segments() {
    let mut stape = SegmentedTape::new();
    stape.create_segment("keep".to_string(), 32, SegmentType::Data).unwrap();
    stape.tape.checkpoint("before".to_string());
    stape.create_segment("gone".to_string(), 32, SegmentType::Data).unwrap();
    stape.write_segment("gone", 0, b"xyz").unwrap();
    assert_eq!(stape.rewind("missing"), Err(VmError::UnknownCheckpoint));
    stape.rewind("before").unwrap();
    assert!(stape.get_segment("keep").is_some());
    assert!(stape.get_segment("gone").is_none());
    // the space is free again: a new segment reuses the start
    let start = stape.create_segment("fresh".to_string(), 32, SegmentType::Data).unwrap();
    assert_eq!(start, 32);
    assert_eq!(stape.read_segment("fresh", 0, 3).unwrap(), vec![0, 0, 0]);
}
