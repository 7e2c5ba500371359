//! Named, bounds-checked regions over the tape.
//!
//! Segments never overlap: the allocator is first-fit over the segments
//! sorted by start, and the segment list is kept in that order.  Segment
//! writes journal both a segment-level entry and the underlying raw write,
//! so a bulk rewind over the raw trail restores the bytes without any
//! segment-aware logic.  The overlay's own rewinds additionally invert
//! `SegmentCreate` entries: a segment whose creation entry is popped is
//! removed from the segment list.

use vstd::prelude::*;
use vstd::slice::slice_to_vec;

use crate::errors::VmError;
use crate::names::str_eq;
use crate::tape::read_seq;
use crate::tape::write_seq;
use crate::tape::Tape;
use crate::tape::TapeSnap;
use crate::tape::TrailOp;
use crate::tape::TrailOpV;

verus! {

/// A named region of tape.
pub struct Segment {
    pub name: String,
    pub start: i64,
    pub size: usize,
    pub segment_type: SegmentType,
    /// Index structures for this segment (reserved; not exercised here).
    pub indices: Vec<Index>,
}

/// What a segment is used for.
pub enum SegmentType {
    Code,
    Data,
    Stack,
    Heap,
    Table { schema: Schema },
    Index,
    Log,
}

/// A table segment's row layout.
pub struct Schema {
    pub fields: Vec<Field>,
    pub primary_key: Vec<String>,
}

/// One field of a schema.
pub struct Field {
    pub name: String,
    pub dtype: DataType,
    pub nullable: bool,
}

/// The type of a schema field.
pub enum DataType {
    Int8,
    Int16,
    Int32,
    Int64,
    UInt8,
    UInt16,
    UInt32,
    UInt64,
    Float32,
    Float64,
    String { max_len: Option<usize> },
    Bytes { max_len: Option<usize> },
    Timestamp,
}

/// An auxiliary lookup structure rooted on the tape (reserved).
pub struct Index {
    pub name: String,
    pub index_type: IndexType,
    pub fields: Vec<String>,
    /// Root of the structure's nodes on the tape.
    pub root_position: i64,
}

/// The kind of an index.
pub enum IndexType {
    BTree,
    Hash,
    Bitmap,
    FullText,
}

/// The segment operations, for implementations that put them behind a
/// trait object of their own.
pub trait SegmentExt {
    fn create_segment(&mut self, name: String, size: usize, segment_type: SegmentType) -> Result<
        i64,
        VmError,
    >;

    fn read_segment(&self, name: &str, offset: i64, len: usize) -> Result<Vec<u8>, VmError>;

    fn write_segment(&mut self, name: &str, offset: i64, data: &[u8]) -> Result<(), VmError>;

    fn get_segment(&self, name: &str) -> Option<&Segment>;

    fn list_segments(&self) -> Vec<&Segment>;
}

/// The two segment-level trail entries, as a standalone enum (reserved).
pub enum SegmentTrailOp {
    SegmentCreate { name: String, start: i64, size: usize },
    SegmentModify { name: String, offset: i64, old_data: Vec<u8>, new_data: Vec<u8> },
}

/// Segments sorted by start, pairwise disjoint, with distinct names,
/// non-negative starts and representable ends.
pub open spec fn segs_wf(ss: Seq<Segment>) -> bool {
    &&& forall|i: int, j: int| 0 <= i < j < ss.len()
        ==> (#[trigger] ss[i]).name@ != (#[trigger] ss[j]).name@
    &&& forall|i: int, j: int| 0 <= i < j < ss.len()
        ==> (#[trigger] ss[i]).start + ss[i].size <= (#[trigger] ss[j]).start
    &&& forall|i: int| 0 <= i < ss.len() ==> 0 <= (#[trigger] ss[i]).start && ss[i].start
        + ss[i].size <= i64::MAX
}

/// Where the used part of the address space ends.
pub open spec fn segs_end(ss: Seq<Segment>) -> int {
    if ss.len() == 0 {
        0
    } else {
        ss.last().start + ss.last().size
    }
}

/// The first-fit start: the first gap of `size` bytes in the sorted
/// segment list at or after `cursor`, or the end of the last segment.
pub open spec fn first_fit(ss: Seq<Segment>, cursor: int, size: int) -> int
    decreases ss.len(),
{
    if ss.len() == 0 {
        cursor
    } else if ss[0].start - cursor >= size {
        cursor
    } else {
        first_fit(ss.skip(1), ss[0].start + ss[0].size, size)
    }
}

/// How many segments precede the first-fit gap.
pub open spec fn first_fit_idx(ss: Seq<Segment>, cursor: int, size: int) -> int
    decreases ss.len(),
{
    if ss.len() == 0 {
        0
    } else if ss[0].start - cursor >= size {
        0
    } else {
        1 + first_fit_idx(ss.skip(1), ss[0].start + ss[0].size, size)
    }
}

/// A named-region overlay that journals through the underlying tape.
pub struct SegmentedTape {
    /// The underlying tape; segment I/O composes into its journal.
    pub tape: Tape,
    /// The segments, kept sorted by start.
    pub segments: Vec<Segment>,
}

impl SegmentedTape {
    /// The segments, sorted by start.
    pub open spec fn seg_list(self) -> Seq<Segment> {
        self.segments@
    }

    /// The overlay's invariant: the tape's own, plus well-formed segments.
    pub open spec fn inv(self) -> bool {
        &&& self.tape.inv()
        &&& segs_wf(self.seg_list())
    }

    /// A fresh overlay over a fresh tape, with no segments.
    pub fn new() -> (r: SegmentedTape)
        ensures
            r.inv(),
            r.seg_list().len() == 0,
            r.tape@ == (TapeSnap {
                head: 0,
                bytes: crate::tape::zero_bytes(),
                marks: Map::<Seq<char>, i64>::empty(),
            }),
            r.tape.trail_ops() == Seq::<TrailOpV>::empty(),
            r.tape.cp_map() == Map::<Seq<char>, usize>::empty(),
            r.tape.marks_ok(),
    {
        SegmentedTape { tape: Tape::new(), segments: Vec::new() }
    }

    /// The index of the segment carrying `name`, if any.
    fn seg_index(&self, name: &str) -> (r: Option<usize>)
        requires
            self.inv(),
        ensures
            (match r {
                Some(i) => i < self.seg_list().len() && self.seg_list()[i as int].name@ == name@,
                None => forall|i: int| 0 <= i < self.seg_list().len()
                    ==> (#[trigger] self.seg_list()[i]).name@ != name@,
            }),
    {
        let mut i: usize = 0;
        while i < self.segments.len()
            invariant
                0 <= i <= self.segments@.len(),
                forall|j: int| 0 <= j < i ==> (#[trigger] self.segments@[j]).name@ != name@,
            decreases self.segments@.len() - i,
        {
            if str_eq(self.segments[i].name.as_str(), name) {
                return Some(i);
            }
            i += 1;
        }
        None
    }

    /// The segment carrying `name`, if any.
    pub fn get_segment(&self, name: &str) -> (r: Option<&Segment>)
        requires
            self.inv(),
        ensures
            (match r {
                Some(s) => exists|i: int| 0 <= i < self.seg_list().len()
                    && *s == #[trigger] self.seg_list()[i] && s.name@ == name@,
                None => forall|i: int| 0 <= i < self.seg_list().len()
                    ==> (#[trigger] self.seg_list()[i]).name@ != name@,
            }),
    {
        match self.seg_index(name) {
            Some(i) => Some(&self.segments[i]),
            None => None,
        }
    }

    /// All segments, in start order.
    pub fn list_segments(&self) -> (r: Vec<&Segment>)
        ensures
            r@.len() == self.seg_list().len(),
            forall|i: int| 0 <= i < r@.len() ==> *r@[i] == self.seg_list()[i],
    {
        let mut r: Vec<&Segment> = Vec::new();
        let mut i: usize = 0;
        while i < self.segments.len()
            invariant
                0 <= i <= self.segments@.len(),
                r@.len() == i,
                forall|j: int| 0 <= j < i ==> *r@[j] == self.segments@[j],
            decreases self.segments@.len() - i,
        {
            r.push(&self.segments[i]);
            i += 1;
        }
        r
    }

    /// Create a segment of `size` bytes at the first-fit start.  Fails,
    /// changing nothing, when the name already exists.  On success the
    /// journal gains one `SegmentCreate` entry and the start is returned.
    pub fn create_segment(&mut self, name: String, size: usize, segment_type: SegmentType) -> (r:
        Result<i64, VmError>)
        requires
            old(self).inv(),
            segs_end(old(self).seg_list()) + size <= i64::MAX,
        ensures
            final(self).inv(),
            (exists|i: int| 0 <= i < old(self).seg_list().len()
                && (#[trigger] old(self).seg_list()[i]).name@ == name@) ==> r == Err::<
                i64,
                VmError,
            >(VmError::DuplicateSegment) && *final(self) == *old(self),
            (forall|i: int| 0 <= i < old(self).seg_list().len()
                ==> (#[trigger] old(self).seg_list()[i]).name@ != name@) ==> {
                let start = first_fit(old(self).seg_list(), 0, size as int);
                let idx = first_fit_idx(old(self).seg_list(), 0, size as int);
                &&& r == Ok::<i64, VmError>(start as i64)
                &&& 0 <= start && start + size <= i64::MAX
                &&& final(self).seg_list().len() == old(self).seg_list().len() + 1
                &&& final(self).seg_list() == old(self).seg_list().insert(
                    idx,
                    final(self).seg_list()[idx],
                )
                &&& final(self).seg_list()[idx].name == name
                &&& final(self).seg_list()[idx].start == start
                &&& final(self).seg_list()[idx].size == size
                &&& final(self).seg_list()[idx].segment_type == segment_type
                &&& final(self).seg_list()[idx].indices@.len() == 0
                &&& final(self).tape@ == old(self).tape@
                &&& final(self).tape.trail_ops() == old(self).tape.trail_ops().push(
                    TrailOpV::SegmentCreate { name: name@, start: start, size: size as int },
                )
                &&& final(self).tape.past() == old(self).tape.past().push(old(self).tape@)
            },
            final(self).tape.cp_map() == old(self).tape.cp_map(),
            final(self).tape.marks_ok() == old(self).tape.marks_ok(),
    {
        if self.seg_index(name.as_str()).is_some() {
            return Err(VmError::DuplicateSegment);
        }
        let ghost ss0 = self.segments@;
        let (start, i) = self.find_free_space(size);
        let segment = Segment {
            name: name.clone(),
            start,
            size,
            segment_type,
            indices: Vec::new(),
        };
        self.tape.add_trail_op(TrailOp::SegmentCreate { name, start, size });
        self.segments.insert(i, segment);
        proof {
            let ghost ss1 = self.segments@;
            assert(ss1 == ss0.insert(i as int, ss1[i as int]));
            assert(ss1[i as int].name@ == name@);
            assert forall|a: int, b: int| 0 <= a < b < ss1.len()
                implies (#[trigger] ss1[a]).name@ != (#[trigger] ss1[b]).name@ by {
                if a < i as int {
                    assert(ss1[a] == ss0[a]);
                }
                if a > i as int {
                    assert(ss1[a] == ss0[a - 1]);
                }
                if b < i as int {
                    assert(ss1[b] == ss0[b]);
                }
                if b > i as int {
                    assert(ss1[b] == ss0[b - 1]);
                }
            }
            assert forall|a: int, b: int| 0 <= a < b < ss1.len()
                implies (#[trigger] ss1[a]).start + ss1[a].size <= (#[trigger] ss1[b]).start by {
                if a < i as int {
                    assert(ss1[a] == ss0[a]);
                }
                if a > i as int {
                    assert(ss1[a] == ss0[a - 1]);
                }
                if b < i as int {
                    assert(ss1[b] == ss0[b]);
                }
                if b > i as int {
                    assert(ss1[b] == ss0[b - 1]);
                }
            }
            assert forall|a: int| 0 <= a < ss1.len() implies 0 <= (#[trigger] ss1[a]).start
                && ss1[a].start + ss1[a].size <= i64::MAX by {
                if a < i as int {
                    assert(ss1[a] == ss0[a]);
                }
                if a > i as int {
                    assert(ss1[a] == ss0[a - 1]);
                }
            }
        }
        Ok(start)
    }

    /// The first-fit start for a new segment of `size` bytes, and the
    /// position it takes in the sorted segment list.
    fn find_free_space(&self, size: usize) -> (r: (i64, usize))
        requires
            self.inv(),
            segs_end(self.seg_list()) + size <= i64::MAX,
        ensures
            r.0 == first_fit(self.seg_list(), 0, size as int),
            r.1 == first_fit_idx(self.seg_list(), 0, size as int),
            r.1 <= self.seg_list().len(),
            0 <= r.0,
            r.0 + size <= i64::MAX,
            r.1 > 0 ==> self.seg_list()[r.1 - 1].start + self.seg_list()[r.1 - 1].size <= r.0,
            r.1 < self.seg_list().len() ==> r.0 + size <= self.seg_list()[r.1 as int].start,
            forall|j: int| 0 <= j < r.1 ==> (#[trigger] self.seg_list()[j]).start
                + self.seg_list()[j].size <= r.0,
            forall|j: int| r.1 <= j < self.seg_list().len()
                ==> r.0 + size <= (#[trigger] self.seg_list()[j]).start,
    {
        let ghost ss0 = self.segments@;
        proof {
            assert(ss0.skip(0) =~= ss0);
        }
        let mut cursor: i64 = 0;
        let mut i: usize = 0;
        while i < self.segments.len()
            invariant
                segs_wf(ss0),
                ss0 == self.segments@,
                segs_end(ss0) + size <= i64::MAX,
                0 <= i <= ss0.len(),
                0 <= cursor,
                i == 0 ==> cursor == 0,
                i > 0 ==> cursor == ss0[i - 1].start + ss0[i - 1].size,
                first_fit(ss0, 0, size as int) == first_fit(
                    ss0.skip(i as int),
                    cursor as int,
                    size as int,
                ),
                first_fit_idx(ss0, 0, size as int) == i + first_fit_idx(
                    ss0.skip(i as int),
                    cursor as int,
                    size as int,
                ),
            decreases ss0.len() - i,
        {
            proof {
                assert(ss0.skip(i as int)[0] == ss0[i as int]);
                if i > 0 {
                    assert(ss0[i - 1].start + ss0[i - 1].size <= ss0[i as int].start);
                }
                if i as int == ss0.len() - 1 {
                    assert(segs_end(ss0) == ss0[i as int].start + ss0[i as int].size);
                } else {
                    assert(ss0[i as int].start + ss0[i as int].size <= ss0[ss0.len() - 1].start);
                    assert(segs_end(ss0) == ss0[ss0.len() - 1].start + ss0[ss0.len() - 1].size);
                }
            }
            if self.segments[i].start - cursor >= size as i64 {
                proof {
                    assert(first_fit(ss0.skip(i as int), cursor as int, size as int)
                        == cursor as int);
                    assert(first_fit_idx(ss0.skip(i as int), cursor as int, size as int) == 0);
                    assert forall|j: int| 0 <= j < i
                        implies (#[trigger] ss0[j]).start + ss0[j].size <= cursor as int by {
                        if j < i - 1 {
                            assert(ss0[j].start + ss0[j].size <= ss0[i - 1].start);
                        }
                    }
                    assert forall|j: int| i <= j < ss0.len()
                        implies cursor as int + size <= (#[trigger] ss0[j]).start by {
                        if j > i as int {
                            assert(ss0[i as int].start + ss0[i as int].size <= ss0[j].start);
                        }
                    }
                }
                return (cursor, i);
            }
            proof {
                assert(ss0.skip(i as int).skip(1) =~= ss0.skip(i as int + 1));
            }
            cursor = self.segments[i].start + self.segments[i].size as i64;
            i += 1;
        }
        proof {
            assert(ss0.skip(i as int) =~= Seq::<Segment>::empty());
            assert(first_fit(ss0, 0, size as int) == cursor as int);
            assert(first_fit_idx(ss0, 0, size as int) == i as int);
            assert forall|j: int| 0 <= j < i
                implies (#[trigger] ss0[j]).start + ss0[j].size <= cursor as int by {
                if j < i - 1 {
                    assert(ss0[j].start + ss0[j].size <= ss0[i - 1].start);
                }
            }
            if i > 0 {
                assert(segs_end(ss0) == cursor as int);
            }
        }
        (cursor, i)
    }

    /// Read `len` bytes at `offset` inside the named segment.  Reads do
    /// not mutate the tape and do not journal.
    pub fn read_segment(&self, name: &str, offset: i64, len: usize) -> (r: Result<Vec<u8>, VmError>)
        requires
            self.inv(),
        ensures
            (forall|i: int| 0 <= i < self.seg_list().len()
                ==> (#[trigger] self.seg_list()[i]).name@ != name@) ==> r == Err::<Vec<u8>, VmError>(
                VmError::UnknownSegment,
            ),
            forall|i: int| 0 <= i < self.seg_list().len()
                && (#[trigger] self.seg_list()[i]).name@ == name@ ==> {
                let s = self.seg_list()[i];
                if offset < 0 || offset + len > s.size {
                    r == Err::<Vec<u8>, VmError>(VmError::SegmentBounds)
                } else {
                    r is Ok && r->Ok_0@ == read_seq(self.tape@.bytes, s.start + offset, len as nat)
                }
            },
    {
        let i = match self.seg_index(name) {
            Some(i) => i,
            None => {
                return Err(VmError::UnknownSegment);
            }
        };
        let start = self.segments[i].start;
        let size = self.segments[i].size;
        if offset < 0 || offset as u64 > size as u64 || len as u64 > size as u64 - offset as u64 {
            return Err(VmError::SegmentBounds);
        }
        let data = self.tape.read_at(start + offset, len);
        Ok(data)
    }

    /// Write `data` at `offset` inside the named segment.  On success the
    /// journal gains a `SegmentModify` entry holding the range's old and
    /// new bytes, then the seek to the range, the raw write, and the seek
    /// restoring the head; the double journaling is deliberate, so a bulk
    /// rewind over the raw trail still restores the bytes.  On failure
    /// nothing changes and nothing is journaled.
    pub fn write_segment(&mut self, name: &str, offset: i64, data: &[u8]) -> (r: Result<
        (),
        VmError,
    >)
        requires
            old(self).inv(),
        ensures
            final(self).inv(),
            final(self).seg_list() == old(self).seg_list(),
            final(self).tape.cp_map() == old(self).tape.cp_map(),
            final(self).tape.marks_ok() == old(self).tape.marks_ok(),
            (forall|i: int| 0 <= i < old(self).seg_list().len()
                ==> (#[trigger] old(self).seg_list()[i]).name@ != name@) ==> r == Err::<(), VmError>(
                VmError::UnknownSegment,
            ) && *final(self) == *old(self),
            forall|i: int| 0 <= i < old(self).seg_list().len()
                && (#[trigger] old(self).seg_list()[i]).name@ == name@ ==> {
                let s = old(self).seg_list()[i];
                if offset < 0 || offset + data@.len() > s.size {
                    r == Err::<(), VmError>(VmError::SegmentBounds) && *final(self) == *old(self)
                } else {
                    let pos = s.start + offset;
                    let olds = read_seq(old(self).tape@.bytes, pos, data@.len());
                    &&& r == Ok::<(), VmError>(())
                    &&& final(self).tape@ == (TapeSnap {
                        bytes: write_seq(old(self).tape@.bytes, pos, data@),
                        ..old(self).tape@
                    })
                    &&& final(self).tape.trail_ops() == old(self).tape.trail_ops().push(
                        TrailOpV::SegmentModify {
                            name: name@,
                            offset: offset as int,
                            old_data: olds,
                            new_data: data@,
                        },
                    ).push(TrailOpV::Seek { old_pos: old(self).tape@.head, new_pos: pos }).push(
                        TrailOpV::Write { pos: pos, old: olds, new: data@ },
                    ).push(TrailOpV::Seek { old_pos: pos, new_pos: old(self).tape@.head })
                }
            },
    {
        let i = match self.seg_index(name) {
            Some(i) => i,
            None => {
                return Err(VmError::UnknownSegment);
            }
        };
        let start = self.segments[i].start;
        let size = self.segments[i].size;
        if offset < 0 || offset as u64 > size as u64 || (data.len() as u64) > size as u64
            - offset as u64 {
            return Err(VmError::SegmentBounds);
        }
        let pos = start + offset;
        let old_pos = self.tape.position();
        let old_data = self.tape.read_at(pos, data.len());
        let name2 = self.segments[i].name.clone();
        self.tape.add_trail_op(
            TrailOp::SegmentModify { name: name2, offset, old_data, new_data: slice_to_vec(data) },
        );
        self.tape.seek(pos);
        self.tape.write(data);
        self.tape.seek(old_pos);
        Ok(())
    }
}

/// No two distinct segments ever overlap: one ends at or before the other
/// starts.  This holds at all times, because it follows from the segment
/// list's well-formedness, which every operation preserves.
pub proof fn lemma_segments_disjoint(st: SegmentedTape, i: int, j: int)
    requires
        st.inv(),
        0 <= i < st.seg_list().len(),
        0 <= j < st.seg_list().len(),
        i != j,
    ensures
        st.seg_list()[i].start + st.seg_list()[i].size <= st.seg_list()[j].start
            || st.seg_list()[j].start + st.seg_list()[j].size <= st.seg_list()[i].start,
{
}

/// Whether the entries hold a `SegmentCreate` for the given name.
pub open spec fn has_create(ops: Seq<TrailOpV>, name: Seq<char>) -> bool {
    exists|i: int| 0 <= i < ops.len() && ((#[trigger] ops[i]) matches TrailOpV::SegmentCreate {
        name: n,
        ..
    } && n == name)
}

/// The segments surviving a rewind that pops the given entries: those
/// whose creation entry is not among them, in their original order.
pub open spec fn drop_created(segs: Seq<Segment>, popped: Seq<TrailOpV>) -> Seq<Segment>
    decreases segs.len(),
{
    if segs.len() == 0 {
        segs
    } else if has_create(popped, segs[0].name@) {
        drop_created(segs.skip(1), popped)
    } else {
        seq![segs[0]] + drop_created(segs.skip(1), popped)
    }
}

impl SegmentedTape {
    /// Whether a trail entry in `[from, to)` creates the named segment.
    fn created_in_range(&self, name: &str, from: usize, to: usize) -> (r: bool)
        requires
            from <= to <= self.tape.trail_ops().len(),
        ensures
            r == has_create(self.tape.trail_ops().subrange(from as int, to as int), name@),
    {
        let ghost popped = self.tape.trail_ops().subrange(from as int, to as int);
        let mut k = from;
        while k < to
            invariant
                from <= k <= to <= self.tape.trail_ops().len(),
                popped == self.tape.trail_ops().subrange(from as int, to as int),
                forall|i: int| 0 <= i < k - from ==> !((#[trigger] popped[i])
                    matches TrailOpV::SegmentCreate { name: n, .. } && n == name@),
            decreases to - k,
        {
            proof {
                assert(popped[k - from] == self.tape.trail_ops()[k as int]);
            }
            match self.tape.trail_entry(k) {
                TrailOp::SegmentCreate { name: n2, start, size } => {
                    if crate::names::str_eq(n2.as_str(), name) {
                        return true;
                    }
                }
                _ => {}
            }
            k += 1;
        }
        false
    }

    /// Remove every segment whose creation entry sits in `[from, to)` of
    /// the trail.  The tape itself is untouched.
    fn remove_created(&mut self, from: usize, to: usize)
        requires
            old(self).inv(),
            from <= to <= old(self).tape.trail_ops().len(),
        ensures
            final(self).inv(),
            final(self).tape == old(self).tape,
            final(self).seg_list() == drop_created(
                old(self).seg_list(),
                old(self).tape.trail_ops().subrange(from as int, to as int),
            ),
    {
        let ghost popped = self.tape.trail_ops().subrange(from as int, to as int);
        let ghost ss0 = self.segments@;
        let mut j = self.segments.len();
        proof {
            assert(ss0.skip(j as int) =~= Seq::<Segment>::empty());
            assert(self.segments@ =~= ss0.take(j as int) + drop_created(
                ss0.skip(j as int),
                popped,
            ));
        }
        while j > 0
            invariant
                self.tape == old(self).tape,
                old(self).inv(),
                popped == old(self).tape.trail_ops().subrange(from as int, to as int),
                from <= to <= old(self).tape.trail_ops().len(),
                ss0 == old(self).segments@,
                0 <= j <= ss0.len(),
                segs_wf(self.segments@),
                self.segments@ == ss0.take(j as int) + drop_created(ss0.skip(j as int), popped),
            decreases j,
        {
            j -= 1;
            let ghost cur = self.segments@;
            proof {
                assert(ss0.skip(j as int)[0] == ss0[j as int]);
                assert(ss0.skip(j as int).skip(1) =~= ss0.skip(j as int + 1));
                assert(cur[j as int] == ss0[j as int]);
            }
            let hit = self.created_in_range(self.segments[j].name.as_str(), from, to);
            if hit {
                proof {
                    assert(has_create(popped, ss0[j as int].name@));
                }
                self.segments.remove(j);
                proof {
                    assert(self.segments@ =~= ss0.take(j as int) + drop_created(
                        ss0.skip(j as int),
                        popped,
                    ));
                    assert forall|a: int, b: int| 0 <= a < b < self.segments@.len()
                        implies (#[trigger] self.segments@[a]).name@ != (
                    #[trigger] self.segments@[b]).name@ by {
                        let sa: int = if a < j as int { a } else { a + 1 };
                        let sb: int = if b < j as int { b } else { b + 1 };
                        assert(self.segments@[a] == cur[sa] && self.segments@[b] == cur[sb]);
                    }
                    assert forall|a: int, b: int| 0 <= a < b < self.segments@.len()
                        implies (#[trigger] self.segments@[a]).start + self.segments@[a].size <= (
                    #[trigger] self.segments@[b]).start by {
                        let sa: int = if a < j as int { a } else { a + 1 };
                        let sb: int = if b < j as int { b } else { b + 1 };
                        assert(self.segments@[a] == cur[sa] && self.segments@[b] == cur[sb]);
                    }
                    assert forall|a: int| 0 <= a < self.segments@.len() implies 0 <= (
                    #[trigger] self.segments@[a]).start && self.segments@[a].start
                        + self.segments@[a].size <= i64::MAX by {
                        let sa: int = if a < j as int { a } else { a + 1 };
                        assert(self.segments@[a] == cur[sa]);
                    }
                }
            } else {
                proof {
                    assert(!has_create(popped, ss0[j as int].name@));
                    assert(self.segments@ =~= ss0.take(j as int) + drop_created(
                        ss0.skip(j as int),
                        popped,
                    ));
                }
            }
        }
        proof {
            assert(ss0.take(0) =~= Seq::<Segment>::empty());
            assert(ss0.skip(0) =~= ss0);
            assert(self.segments@ =~= drop_created(ss0, popped));
        }
    }

    /// Pop and invert the newest `n` trail entries, segment entries
    /// included: the bytes, head and marks rewind as on the underlying
    /// tape, and every segment whose `SegmentCreate` entry is popped is
    /// removed.
    pub fn rewind_n(&mut self, n: usize)
        requires
            old(self).inv(),
        ensures
            final(self).inv(),
            final(self).seg_list() == drop_created(
                old(self).seg_list(),
                old(self).tape.trail_ops().skip(
                    Tape::keep_after(old(self).tape.trail_ops().len(), n as nat),
                ),
            ),
            final(self).tape.trail_ops() == old(self).tape.trail_ops().take(
                Tape::keep_after(old(self).tape.trail_ops().len(), n as nat),
            ),
            final(self).tape@.head == old(self).tape.past()[Tape::keep_after(
                old(self).tape.trail_ops().len(),
                n as nat,
            )].head,
            final(self).tape@.bytes == old(self).tape.past()[Tape::keep_after(
                old(self).tape.trail_ops().len(),
                n as nat,
            )].bytes,
            old(self).tape.marks_ok() ==> final(self).tape@ == old(self).tape.past()[
                Tape::keep_after(old(self).tape.trail_ops().len(), n as nat)],
            final(self).tape.marks_ok() == old(self).tape.marks_ok(),
            final(self).tape.cp_map() == old(self).tape.cp_map(),
    {
        let len = self.tape.trail_len();
        let t = if n <= len {
            len - n
        } else {
            0
        };
        self.remove_created(t, len);
        proof {
            assert(old(self).tape.trail_ops().subrange(t as int, len as int)
                =~= old(self).tape.trail_ops().skip(t as int));
        }
        self.tape.rewind_n(n);
    }

    /// Rewind to a named checkpoint of the underlying tape, segment
    /// entries included.  Fails, changing nothing, when the name is
    /// unknown.
    pub fn rewind(&mut self, name: &str) -> (r: Result<(), VmError>)
        requires
            old(self).inv(),
        ensures
            final(self).inv(),
            !old(self).tape.cp_map().dom().contains(name@) ==> r == Err::<(), VmError>(
                VmError::UnknownCheckpoint,
            ) && *final(self) == *old(self),
            old(self).tape.cp_map().dom().contains(name@) ==> r == Ok::<(), VmError>(()) && {
                let t = Tape::keep_to(
                    old(self).tape.trail_ops().len(),
                    old(self).tape.cp_map()[name@] as nat,
                );
                &&& final(self).seg_list() == drop_created(
                    old(self).seg_list(),
                    old(self).tape.trail_ops().skip(t),
                )
                &&& final(self).tape.trail_ops() == old(self).tape.trail_ops().take(t)
                &&& final(self).tape@.head == old(self).tape.past()[t].head
                &&& final(self).tape@.bytes == old(self).tape.past()[t].bytes
                &&& (old(self).tape.marks_ok() ==> final(self).tape@ == old(self).tape.past()[t])
            },
            final(self).tape.marks_ok() == old(self).tape.marks_ok(),
            final(self).tape.cp_map() == old(self).tape.cp_map(),
    {
        let l = match self.tape.checkpoint_len(name) {
            Some(l) => l,
            None => {
                return Err(VmError::UnknownCheckpoint);
            }
        };
        let len = self.tape.trail_len();
        let t = if l <= len {
            l
        } else {
            len
        };
        self.remove_created(t, len);
        proof {
            assert(old(self).tape.trail_ops().subrange(t as int, len as int)
                =~= old(self).tape.trail_ops().skip(t as int));
        }
        let rr = self.tape.rewind(name);
        proof {
            assert(rr is Ok);
        }
        Ok(())
    }
}

} // verus!
