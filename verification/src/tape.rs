//! The tape substrate: a paged, two-sided byte store with a history trail.
//!
//! Positions are signed 64-bit and wrap at the ends of the range.  Reads of
//! positions never written yield zeros.  Every mutation appends an inverse
//! operation to the trail, so any suffix of the journal can be undone,
//! restoring head, bytes and marks exactly.
//!
//! The model: a `TapeSnap` gives the abstract state (head, a byte map over
//! all 64-bit positions, the marks).  The ghost field `snaps` holds one
//! snapshot per trail prefix; the invariant ties consecutive snapshots by
//! `undo_op`, which is what rewinding executes.

use vstd::arithmetic::div_mod::lemma_fundamental_div_mod;
use vstd::arithmetic::div_mod::lemma_fundamental_div_mod_converse_mod;
use vstd::arithmetic::div_mod::lemma_mod_division_less_than_divisor;
use vstd::arithmetic::div_mod::lemma_small_mod;
use vstd::prelude::*;
use vstd::slice::slice_to_vec;

use crate::errors::VmError;
use crate::names::assoc_index;
use crate::names::assoc_map;
use crate::names::assoc_remove;
use crate::names::assoc_set;
use crate::names::keys_unique;
use crate::names::lemma_assoc_at;
use crate::names::lemma_assoc_contains;

verus! {

/// A position is valid when it fits in a signed 64-bit word.
pub open spec fn in_i64(p: int) -> bool {
    i64::MIN <= p <= i64::MAX
}

/// The domain of every byte map: all valid positions.
pub open spec fn byte_dom() -> Set<int> {
    Set::new(|p: int| in_i64(p))
}

/// Reduce an offset computation back into the signed 64-bit range.
/// Defined for one overflow in either direction, which covers every
/// position plus an offset below 2^64.
pub open spec fn wrap_pos(x: int) -> int {
    if x > i64::MAX {
        x - 0x1_0000_0000_0000_0000
    } else if x < i64::MIN {
        x + 0x1_0000_0000_0000_0000
    } else {
        x
    }
}

/// The distance from `base` up to `p`, measured around the 64-bit ring.
pub open spec fn wdiff(p: int, base: int) -> int {
    (p - base) % 0x1_0000_0000_0000_0000
}

/// The bytes a read of `len` at `pos` returns.
pub open spec fn read_seq(m: Map<int, u8>, pos: int, len: nat) -> Seq<u8> {
    Seq::new(len, |i: int| m[wrap_pos(pos + i)])
}

/// The byte map after writing `data` at `pos`.
pub open spec fn write_seq(m: Map<int, u8>, pos: int, data: Seq<u8>) -> Map<int, u8> {
    Map::new(
        |p: int| in_i64(p),
        |p: int| if wdiff(p, pos) < data.len() {
            data[wdiff(p, pos)]
        } else {
            m[p]
        },
    )
}

/// The byte map of a fresh tape: zero everywhere.
pub open spec fn zero_bytes() -> Map<int, u8> {
    Map::new(|p: int| in_i64(p), |p: int| 0u8)
}

/// The abstract state of a tape: head position, bytes, marks.
pub ghost struct TapeSnap {
    pub head: int,
    pub bytes: Map<int, u8>,
    pub marks: Map<Seq<char>, i64>,
}

/// One inverse operation of the trail, abstractly.
pub ghost enum TrailOpV {
    Write { pos: int, old: Seq<u8>, new: Seq<u8> },
    Seek { old_pos: int, new_pos: int },
    Mark { label: Seq<char>, pos: int },
    SegmentCreate { name: Seq<char>, start: int, size: int },
    SegmentModify { name: Seq<char>, offset: int, old_data: Seq<u8>, new_data: Seq<u8> },
}

/// What undoing one trail entry does to the abstract state.
pub open spec fn undo_op(s: TapeSnap, op: TrailOpV) -> TapeSnap {
    match op {
        TrailOpV::Write { pos, old, new } => TapeSnap {
            head: pos,
            bytes: write_seq(s.bytes, pos, old),
            marks: s.marks,
        },
        TrailOpV::Seek { old_pos, new_pos } => TapeSnap { head: old_pos, ..s },
        TrailOpV::Mark { label, pos } => TapeSnap { marks: s.marks.remove(label), ..s },
        TrailOpV::SegmentCreate { .. } => s,
        TrailOpV::SegmentModify { .. } => s,
    }
}

/// Undoing a `Mark` erases the label, so it restores the prior state only
/// when the label was fresh when the entry was recorded.
pub open spec fn op_reversible(s: TapeSnap, op: TrailOpV) -> bool {
    match op {
        TrailOpV::Mark { label, pos } => !s.marks.dom().contains(label),
        _ => true,
    }
}

/// Head and bytes of each snapshot are recovered by undoing the entry
/// recorded after it.
pub open spec fn chain_hb(past: Seq<TapeSnap>, ops: Seq<TrailOpV>) -> bool {
    forall|i: int| 0 <= i < ops.len() ==> {
        let u = undo_op(past[i + 1], #[trigger] ops[i]);
        u.head == past[i].head && u.bytes == past[i].bytes
    }
}

/// Every entry is reversible and undoing it restores the whole snapshot,
/// marks included.
pub open spec fn chain_all(past: Seq<TapeSnap>, ops: Seq<TrailOpV>) -> bool {
    forall|i: int| 0 <= i < ops.len() ==> op_reversible(past[i], #[trigger] ops[i])
        && undo_op(past[i + 1], ops[i]) == past[i]
}

/// Whether the entry writes the byte at position `p`.
pub open spec fn op_writes(op: TrailOpV, p: int) -> bool {
    match op {
        TrailOpV::Write { pos, old, new } => wdiff(p, pos) < new.len(),
        _ => false,
    }
}

/// Whether any entry of the trail writes the byte at position `p`.
pub open spec fn trail_covers(ops: Seq<TrailOpV>, p: int) -> bool {
    exists|i: int| 0 <= i < ops.len() && op_writes(#[trigger] ops[i], p)
}

/// Positions no trail prefix has written hold zero in the matching snapshot.
pub open spec fn zero_hist(past: Seq<TapeSnap>, ops: Seq<TrailOpV>) -> bool {
    forall|j: int, p: int|
        0 <= j < past.len() && in_i64(p) && !trail_covers(ops.take(j), p)
            ==> #[trigger] past[j].bytes[p] == 0
}

/// A 4096-byte page of tape data.
pub struct Page {
    /// The page's bytes; always exactly 4096 of them.
    pub data: Vec<u8>,
    /// Copy-on-write reference count.  A writer that finds it non-zero
    /// clones the buffer before mutating and resets the clone's count.
    pub cow_refs: usize,
}

/// One inverse operation on the trail.
pub enum TrailOp {
    Write { pos: i64, old: Vec<u8>, new: Vec<u8> },
    Seek { old_pos: i64, new_pos: i64 },
    Mark { label: String, pos: i64 },
    SegmentCreate { name: String, start: i64, size: usize },
    SegmentModify { name: String, offset: i64, old_data: Vec<u8>, new_data: Vec<u8> },
}

impl View for TrailOp {
    type V = TrailOpV;

    open spec fn view(&self) -> TrailOpV {
        match self {
            TrailOp::Write { pos, old, new } => TrailOpV::Write {
                pos: *pos as int,
                old: old@,
                new: new@,
            },
            TrailOp::Seek { old_pos, new_pos } => TrailOpV::Seek {
                old_pos: *old_pos as int,
                new_pos: *new_pos as int,
            },
            TrailOp::Mark { label, pos } => TrailOpV::Mark { label: label@, pos: *pos as int },
            TrailOp::SegmentCreate { name, start, size } => TrailOpV::SegmentCreate {
                name: name@,
                start: *start as int,
                size: *size as int,
            },
            TrailOp::SegmentModify { name, offset, old_data, new_data } => TrailOpV::SegmentModify {
                name: name@,
                offset: *offset as int,
                old_data: old_data@,
                new_data: new_data@,
            },
        }
    }
}

impl TrailOp {
    /// Whether this entry is one of the two segment-level kinds.
    pub fn is_segment_op(&self) -> (r: bool)
        ensures
            r == (self@ is SegmentCreate || self@ is SegmentModify),
    {
        match self {
            TrailOp::SegmentCreate { .. } => true,
            TrailOp::SegmentModify { .. } => true,
            _ => false,
        }
    }
}

/// The history trail: inverse operations plus named checkpoints, which are
/// trail lengths, not snapshots.
pub struct Trail {
    pub operations: Vec<TrailOp>,
    pub checkpoints: Vec<(String, usize)>,
}

impl Trail {
    /// An empty trail with no checkpoints.
    pub fn new() -> (r: Trail)
        ensures
            r.operations@.len() == 0,
            r.checkpoints@.len() == 0,
    {
        Trail { operations: Vec::new(), checkpoints: Vec::new() }
    }
}

/// Pages are well formed: distinct indices, 4096 bytes each.
pub open spec fn pages_wf(ps: Seq<(i64, Page)>) -> bool {
    &&& forall|i: int, j: int| 0 <= i < j < ps.len() ==> (#[trigger] ps[i]).0 != (#[trigger] ps[j]).0
    &&& forall|i: int| 0 <= i < ps.len() ==> (#[trigger] ps[i]).1.data@.len() == 4096
}

/// The data of the page with the given index, if present.
pub open spec fn page_lookup(ps: Seq<(i64, Page)>, idx: int) -> Option<Seq<u8>>
    decreases ps.len(),
{
    if ps.len() == 0 {
        None
    } else if ps[0].0 == idx {
        Some(ps[0].1.data@)
    } else {
        page_lookup(ps.skip(1), idx)
    }
}

/// The byte a page store holds at a position; absent pages read as zero.
pub open spec fn page_byte(ps: Seq<(i64, Page)>, p: int) -> u8 {
    match page_lookup(ps, p / 4096) {
        Some(d) => d[p % 4096],
        None => 0,
    }
}

/// The byte map a page store denotes.
pub open spec fn bytes_of(ps: Seq<(i64, Page)>) -> Map<int, u8> {
    Map::new(|p: int| in_i64(p), |p: int| page_byte(ps, p))
}

/// The tape: sparse pages, a head, named marks, and the trail.
pub struct Tape {
    pages: Vec<(i64, Page)>,
    head: i64,
    marks: Vec<(String, i64)>,
    trail: Trail,
    snaps: Ghost<Seq<TapeSnap>>,
    marks_exact: Ghost<bool>,
}

impl View for Tape {
    type V = TapeSnap;

    closed spec fn view(&self) -> TapeSnap {
        TapeSnap {
            head: self.head as int,
            bytes: bytes_of(self.pages@),
            marks: assoc_map(self.marks@),
        }
    }
}

impl Tape {
    /// The trail's entries, abstractly, oldest first.
    pub closed spec fn trail_ops(self) -> Seq<TrailOpV> {
        self.trail.operations@.map_values(|op: TrailOp| op@)
    }

    /// The named checkpoints: each is a trail length.
    pub closed spec fn cp_map(self) -> Map<Seq<char>, usize> {
        assoc_map(self.trail.checkpoints@)
    }

    /// One snapshot per trail prefix; the last is the current state.
    pub closed spec fn past(self) -> Seq<TapeSnap> {
        self.snaps@
    }

    /// Whether every surviving trail entry restores the marks exactly when
    /// undone.  Re-marking an existing label forfeits this; head and bytes
    /// are restored exactly either way.
    pub closed spec fn marks_ok(self) -> bool {
        self.marks_exact@
    }

    /// The tape's invariant.
    pub closed spec fn inv(self) -> bool {
        &&& pages_wf(self.pages@)
        &&& keys_unique(self.marks@)
        &&& keys_unique(self.trail.checkpoints@)
        &&& self.snaps@.len() == self.trail.operations@.len() + 1
        &&& self.snaps@.last() == self@
        &&& chain_hb(self.snaps@, self.trail_ops())
        &&& (self.marks_exact@ ==> chain_all(self.snaps@, self.trail_ops()))
        &&& zero_hist(self.snaps@, self.trail_ops())
        &&& forall|j: int| 0 <= j < self.snaps@.len() ==> (#[trigger] self.snaps@[j]).bytes.dom()
            == byte_dom() && in_i64(self.snaps@[j].head)
    }

    /// Consequences of the invariant that callers may rely on.
    pub proof fn lemma_inv(self)
        requires
            self.inv(),
        ensures
            self.past().len() == self.trail_ops().len() + 1,
            self.past().last() == self@,
            self@.bytes.dom() == byte_dom(),
            self.trail_ops().len() <= usize::MAX,
    {
        assert(self.trail.operations.len() == self.trail.operations@.len());
        assert(self.trail.operations@.len() <= usize::MAX);
    }
}

/// Adding an offset below 2^64 to a valid position and reducing lands on
/// a valid position at that ring distance from the base.
pub proof fn lemma_wrap_exact(base: int, i: int)
    requires
        in_i64(base),
        0 <= i < 0x1_0000_0000_0000_0000,
    ensures
        in_i64(wrap_pos(base + i)),
        wdiff(wrap_pos(base + i), base) == i,
{
    if base + i > i64::MAX {
        assert(wrap_pos(base + i) == base + i - 0x1_0000_0000_0000_0000);
        lemma_fundamental_div_mod_converse_mod(
            i - 0x1_0000_0000_0000_0000,
            0x1_0000_0000_0000_0000,
            -1,
            i,
        );
    } else {
        lemma_small_mod(i as nat, 0x1_0000_0000_0000_0000);
    }
}

/// For valid positions, ring distance `i` from `base` characterises the
/// single position `wrap_pos(base + i)`.
pub proof fn lemma_wdiff_char(p: int, base: int, i: int)
    requires
        in_i64(p),
        in_i64(base),
        0 <= i < 0x1_0000_0000_0000_0000,
    ensures
        (wdiff(p, base) == i) <==> (p == wrap_pos(base + i)),
{
    lemma_wrap_exact(base, i);
    if wdiff(p, base) == i {
        lemma_fundamental_div_mod(p - base, 0x1_0000_0000_0000_0000);
        let q = (p - base) / 0x1_0000_0000_0000_0000;
        assert(p - base == 0x1_0000_0000_0000_0000 * q + i);
        assert(-0x1_0000_0000_0000_0000 < p - base < 0x1_0000_0000_0000_0000);
        assert(q == 0 || q == -1);
        if q == 0 {
            assert(p == base + i);
        } else {
            assert(p == base + i - 0x1_0000_0000_0000_0000);
        }
    }
}

/// Division by the page size keeps quotient and remainder representable.
proof fn lemma_page_div_in_range(p: int)
    requires
        in_i64(p),
    ensures
        in_i64(p / 4096),
        0 <= p % 4096 < 4096,
        p == 4096 * (p / 4096) + p % 4096,
{
    lemma_fundamental_div_mod(p, 4096);
    lemma_mod_division_less_than_divisor(p, 4096);
}

/// Two positions with equal page index and offset are equal.
proof fn lemma_page_split_unique(p: int, q: int)
    requires
        p / 4096 == q / 4096,
        p % 4096 == q % 4096,
    ensures
        p == q,
{
    lemma_fundamental_div_mod(p, 4096);
    lemma_fundamental_div_mod(q, 4096);
}

/// A fresh vector of `n` zero bytes.
fn zero_vec(n: usize) -> (r: Vec<u8>)
    ensures
        r@ == Seq::new(n as nat, |i: int| 0u8),
{
    let mut r: Vec<u8> = Vec::new();
    let mut i: usize = 0;
    while i < n
        invariant
            0 <= i <= n,
            r@.len() == i,
            forall|j: int| 0 <= j < i ==> r@[j] == 0u8,
        decreases n - i,
    {
        r.push(0);
        i += 1;
    }
    proof {
        assert(r@ =~= Seq::new(n as nat, |i: int| 0u8));
    }
    r
}

/// An owned copy of a byte vector.
fn copy_bytes(v: &Vec<u8>) -> (r: Vec<u8>)
    ensures
        r@ == v@,
{
    let mut r: Vec<u8> = Vec::new();
    let mut i: usize = 0;
    while i < v.len()
        invariant
            0 <= i <= v@.len(),
            r@ == v@.take(i as int),
        decreases v@.len() - i,
    {
        r.push(v[i]);
        proof {
            assert(r@ =~= v@.take(i + 1));
        }
        i += 1;
    }
    proof {
        assert(v@.take(v@.len() as int) =~= v@);
    }
    r
}

/// Looking a key up is unchanged by skipping entries that do not carry it.
proof fn lemma_page_lookup_skip(ps: Seq<(i64, Page)>, n: int, idx: int)
    requires
        0 <= n <= ps.len(),
        forall|j: int| 0 <= j < n ==> (#[trigger] ps[j]).0 != idx,
    ensures
        page_lookup(ps, idx) == page_lookup(ps.skip(n), idx),
    decreases n,
{
    if n == 0 {
        assert(ps.skip(0) =~= ps);
    } else {
        assert(ps.skip(1).skip(n - 1) =~= ps.skip(n));
        assert(forall|j: int| 0 <= j < n - 1 ==> (#[trigger] ps.skip(1)[j]).0 != idx);
        lemma_page_lookup_skip(ps.skip(1), n - 1, idx);
    }
}

/// With distinct indices, the entry at `i` decides the lookup of its index.
proof fn lemma_page_lookup_at(ps: Seq<(i64, Page)>, i: int)
    requires
        pages_wf(ps),
        0 <= i < ps.len(),
    ensures
        page_lookup(ps, ps[i].0 as int) == Some(ps[i].1.data@),
    decreases i,
{
    if i > 0 {
        assert(ps.skip(1)[i - 1] == ps[i]);
        assert(pages_wf(ps.skip(1))) by {
            assert(forall|a: int, b: int| 0 <= a < b < ps.skip(1).len()
                ==> (#[trigger] ps.skip(1)[a]).0 != (#[trigger] ps.skip(1)[b]).0);
            assert(forall|a: int| 0 <= a < ps.skip(1).len()
                ==> (#[trigger] ps.skip(1)[a]).1.data@.len() == 4096);
        }
        lemma_page_lookup_at(ps.skip(1), i - 1);
    }
}

/// A lookup that misses every entry returns `None`.
proof fn lemma_page_lookup_none(ps: Seq<(i64, Page)>, idx: int)
    requires
        forall|j: int| 0 <= j < ps.len() ==> (#[trigger] ps[j]).0 != idx,
    ensures
        page_lookup(ps, idx) == None::<Seq<u8>>,
{
    lemma_page_lookup_skip(ps, ps.len() as int, idx);
    assert(ps.skip(ps.len() as int) =~= Seq::<(i64, Page)>::empty());
}

/// Replacing the entry at `i` changes lookups of its index only.
proof fn lemma_page_lookup_update(ps: Seq<(i64, Page)>, i: int, e: (i64, Page), idx: int)
    requires
        pages_wf(ps),
        0 <= i < ps.len(),
        e.0 == ps[i].0,
    ensures
        page_lookup(ps.update(i, e), idx) == (if idx == e.0 as int {
            Some(e.1.data@)
        } else {
            page_lookup(ps, idx)
        }),
    decreases i,
{
    let t = ps.update(i, e);
    if i == 0 {
        if idx != e.0 as int {
            assert(t.skip(1) =~= ps.skip(1));
        }
    } else {
        assert(t[0] == ps[0]);
        if ps[0].0 as int == idx {
        } else {
            assert(t.skip(1) =~= ps.skip(1).update(i - 1, e));
            assert(ps.skip(1)[i - 1] == ps[i]);
            assert(pages_wf(ps.skip(1))) by {
                assert(forall|a: int, b: int| 0 <= a < b < ps.skip(1).len()
                    ==> (#[trigger] ps.skip(1)[a]).0 != (#[trigger] ps.skip(1)[b]).0);
                assert(forall|a: int| 0 <= a < ps.skip(1).len()
                    ==> (#[trigger] ps.skip(1)[a]).1.data@.len() == 4096);
            }
            lemma_page_lookup_update(ps.skip(1), i - 1, e, idx);
        }
    }
}

/// Appending an entry with a fresh index adds exactly that lookup.
proof fn lemma_page_lookup_push(ps: Seq<(i64, Page)>, e: (i64, Page), idx: int)
    requires
        forall|j: int| 0 <= j < ps.len() ==> (#[trigger] ps[j]).0 != e.0,
    ensures
        page_lookup(ps.push(e), idx) == (if idx == e.0 as int {
            Some(e.1.data@)
        } else {
            page_lookup(ps, idx)
        }),
    decreases ps.len(),
{
    let t = ps.push(e);
    assert(t.len() == ps.len() + 1);
    if ps.len() == 0 {
        assert(t[0] == e);
        assert(t.skip(1) =~= Seq::<(i64, Page)>::empty());
        if idx == e.0 as int {
            assert(page_lookup(t, idx) == Some(e.1.data@));
        } else {
            assert(page_lookup(t, idx) == page_lookup(t.skip(1), idx));
            assert(page_lookup(t.skip(1), idx) == None::<Seq<u8>>);
            assert(page_lookup(ps, idx) == None::<Seq<u8>>);
        }
    } else {
        assert(t[0] == ps[0]);
        assert(ps[0].0 != e.0);
        if ps[0].0 as int == idx {
            assert(page_lookup(t, idx) == Some(ps[0].1.data@));
            assert(page_lookup(ps, idx) == Some(ps[0].1.data@));
            assert(idx != e.0 as int);
        } else {
            assert(t.skip(1) =~= ps.skip(1).push(e));
            assert(forall|j: int| 0 <= j < ps.skip(1).len()
                ==> (#[trigger] ps.skip(1)[j]).0 != e.0);
            lemma_page_lookup_push(ps.skip(1), e, idx);
            assert(page_lookup(t, idx) == page_lookup(t.skip(1), idx));
            assert(page_lookup(ps, idx) == page_lookup(ps.skip(1), idx));
        }
    }
}

/// The byte at a single position, decided against the denoted byte map.
fn byte_at(pages: &Vec<(i64, Page)>, p: i64) -> (r: u8)
    requires
        pages_wf(pages@),
    ensures
        r == bytes_of(pages@)[p as int],
{
    proof {
        lemma_page_div_in_range(p as int);
    }
    let q = p.checked_div_euclid(4096).unwrap();
    let off = p.checked_rem_euclid(4096).unwrap();
    let mut i: usize = 0;
    while i < pages.len()
        invariant
            pages_wf(pages@),
            q == p as int / 4096,
            off == p as int % 4096,
            0 <= off < 4096,
            0 <= i <= pages@.len(),
            forall|j: int| 0 <= j < i ==> (#[trigger] pages@[j]).0 != q,
        decreases pages@.len() - i,
    {
        if pages[i].0 == q {
            proof {
                lemma_page_lookup_skip(pages@, i as int, q as int);
                assert(pages@.skip(i as int)[0] == pages@[i as int]);
                assert(page_lookup(pages@, q as int) == Some(pages@[i as int].1.data@));
                assert(pages@[i as int].1.data@.len() == 4096);
            }
            return pages[i].1.data[off as usize];
        }
        i += 1;
    }
    proof {
        lemma_page_lookup_none(pages@, q as int);
    }
    0
}

/// Store one byte, allocating or copy-on-write-cloning its page as needed.
fn store_byte(pages: &mut Vec<(i64, Page)>, p: i64, b: u8)
    requires
        pages_wf(old(pages)@),
    ensures
        pages_wf(final(pages)@),
        bytes_of(final(pages)@) == bytes_of(old(pages)@).insert(p as int, b),
{
    proof {
        lemma_page_div_in_range(p as int);
    }
    let q = p.checked_div_euclid(4096).unwrap();
    let off = p.checked_rem_euclid(4096).unwrap();
    let ghost ps0 = pages@;
    let mut i: usize = 0;
    let n = pages.len();
    while i < n
        invariant
            pages_wf(pages@),
            pages@ == ps0,
            ps0 == old(pages)@,
            n == pages@.len(),
            q == p as int / 4096,
            0 <= p as int % 4096 < 4096,
            off == p as int % 4096,
            p as int == 4096 * (q as int) + off as int,
            0 <= i <= n,
            forall|j: int| 0 <= j < i ==> (#[trigger] pages@[j]).0 != q,
        decreases n - i,
    {
        if pages[i].0 == q {
            proof {
                assert(ps0[i as int].1.data@.len() == 4096);
            }
            let ghost dold = ps0[i as int].1.data@;
            let e = &mut pages[i];
            if e.1.cow_refs > 0 {
                let nd = copy_bytes(&e.1.data);
                e.1 = Page { data: nd, cow_refs: 0 };
            }
            proof {
                assert(e.1.data@ == dold);
                assert(e.0 == q);
            }
            e.1.data[off as usize] = b;
            proof {
                let ghost enew = pages@[i as int];
                assert(enew.0 == q);
                assert(enew.1.data@ =~= dold.update(off as int, b));
                assert(pages@ =~= ps0.update(i as int, enew));
                assert forall|a: int, bb: int| 0 <= a < bb < pages@.len()
                    implies (#[trigger] pages@[a]).0 != (#[trigger] pages@[bb]).0 by {
                    assert(ps0[a].0 != ps0[bb].0);
                }
                assert forall|a: int| 0 <= a < pages@.len()
                    implies (#[trigger] pages@[a]).1.data@.len() == 4096 by {
                    assert(ps0[a].1.data@.len() == 4096);
                }
                assert forall|pp: int| in_i64(pp)
                    implies bytes_of(pages@)[pp] == bytes_of(ps0).insert(p as int, b)[pp] by {
                    lemma_page_lookup_update(ps0, i as int, enew, pp / 4096);
                    lemma_page_lookup_at(ps0, i as int);
                    lemma_page_div_in_range(pp);
                    if pp / 4096 == q as int {
                        if pp % 4096 == off as int {
                            lemma_page_split_unique(pp, p as int);
                        } else {
                            assert(pp != p as int);
                        }
                    } else {
                        assert(pp != p as int);
                    }
                }
                assert(bytes_of(pages@).dom() =~= bytes_of(ps0).insert(p as int, b).dom());
                assert(bytes_of(pages@) =~= bytes_of(ps0).insert(p as int, b));
            }
            return;
        }
        i += 1;
    }
    let mut nd = zero_vec(4096);
    nd[off as usize] = b;
    let e = (q, Page { data: nd, cow_refs: 0 });
    pages.push(e);
    proof {
        let ghost enew = pages@.last();
        assert(pages@ =~= ps0.push(enew));
        assert forall|a: int, bb: int| 0 <= a < bb < pages@.len()
            implies (#[trigger] pages@[a]).0 != (#[trigger] pages@[bb]).0 by {
            if bb < pages@.len() - 1 {
                assert(ps0[a].0 != ps0[bb].0);
            } else {
                assert(pages@[a].0 != q);
            }
        }
        assert forall|a: int| 0 <= a < pages@.len()
            implies (#[trigger] pages@[a]).1.data@.len() == 4096 by {
            if a < pages@.len() - 1 {
                assert(ps0[a].1.data@.len() == 4096);
            }
        }
        assert forall|pp: int| in_i64(pp)
            implies bytes_of(pages@)[pp] == bytes_of(ps0).insert(p as int, b)[pp] by {
            lemma_page_lookup_push(ps0, enew, pp / 4096);
            lemma_page_div_in_range(pp);
            if pp / 4096 == q as int {
                lemma_page_lookup_none(ps0, q as int);
                if pp % 4096 == off as int {
                    lemma_page_split_unique(pp, p as int);
                } else {
                    assert(pp != p as int);
                }
            } else {
                assert(pp != p as int);
            }
        }
        assert(bytes_of(pages@).dom() =~= bytes_of(ps0).insert(p as int, b).dom());
        assert(bytes_of(pages@) =~= bytes_of(ps0).insert(p as int, b));
    }
}

/// Writing nothing leaves the byte map unchanged.
proof fn lemma_write_seq_empty(m: Map<int, u8>, base: int, data: Seq<u8>)
    requires
        m.dom() == byte_dom(),
        data.len() == 0,
    ensures
        write_seq(m, base, data) == m,
{
    assert forall|pp: int| in_i64(pp)
        implies write_seq(m, base, data)[pp] == m[pp] by {
        lemma_mod_division_less_than_divisor(pp - base, 0x1_0000_0000_0000_0000);
    }
    assert(write_seq(m, base, data).dom() =~= m.dom());
    assert(write_seq(m, base, data) =~= m);
}

/// Writing one more byte of `data` is one more point update.
proof fn lemma_write_seq_step(m: Map<int, u8>, base: int, data: Seq<u8>, i: int)
    requires
        in_i64(base),
        0 <= i < data.len(),
        data.len() <= 0x1_0000_0000_0000_0000,
    ensures
        write_seq(m, base, data.take(i + 1)) == write_seq(m, base, data.take(i)).insert(
            wrap_pos(base + i),
            data[i],
        ),
{
    lemma_wrap_exact(base, i);
    let lhs = write_seq(m, base, data.take(i + 1));
    let rhs = write_seq(m, base, data.take(i)).insert(wrap_pos(base + i), data[i]);
    assert forall|pp: int| in_i64(pp) implies lhs[pp] == rhs[pp] by {
        lemma_mod_division_less_than_divisor(pp - base, 0x1_0000_0000_0000_0000);
        lemma_wdiff_char(pp, base, i);
        if wdiff(pp, base) < i + 1 {
            if wdiff(pp, base) == i {
                assert(pp == wrap_pos(base + i));
                assert(lhs[pp] == data.take(i + 1)[i]);
            } else {
                assert(pp != wrap_pos(base + i));
                assert(lhs[pp] == data.take(i + 1)[wdiff(pp, base)]);
                assert(data.take(i + 1)[wdiff(pp, base)] == data.take(i)[wdiff(pp, base)]);
            }
        } else {
            assert(pp != wrap_pos(base + i));
        }
    }
    assert(lhs.dom() =~= rhs.dom());
    assert(lhs =~= rhs);
}

/// Writing back what a range held before the write restores the map.
proof fn lemma_write_seq_undo(m: Map<int, u8>, base: int, data: Seq<u8>)
    requires
        m.dom() == byte_dom(),
        in_i64(base),
        data.len() <= 0x1_0000_0000_0000_0000,
    ensures
        write_seq(write_seq(m, base, data), base, read_seq(m, base, data.len() as nat)) == m,
{
    let w = write_seq(m, base, data);
    let r = read_seq(m, base, data.len() as nat);
    assert forall|pp: int| in_i64(pp) implies write_seq(w, base, r)[pp] == m[pp] by {
        lemma_mod_division_less_than_divisor(pp - base, 0x1_0000_0000_0000_0000);
        let d = wdiff(pp, base);
        if d < data.len() {
            lemma_wdiff_char(pp, base, d);
            assert(pp == wrap_pos(base + d));
            assert(write_seq(w, base, r)[pp] == r[d]);
            assert(r[d] == m[wrap_pos(base + d)]);
        }
    }
    assert(write_seq(w, base, r).dom() =~= m.dom());
    assert(write_seq(w, base, r) =~= m);
}

/// Undoing depends only on head and bytes for its head and bytes outputs.
proof fn lemma_undo_hb(s1: TapeSnap, s2: TapeSnap, op: TrailOpV)
    requires
        s1.head == s2.head,
        s1.bytes == s2.bytes,
    ensures
        undo_op(s1, op).head == undo_op(s2, op).head,
        undo_op(s1, op).bytes == undo_op(s2, op).bytes,
{
    match op {
        TrailOpV::Write { pos, old, new } => {}
        TrailOpV::Seek { old_pos, new_pos } => {}
        TrailOpV::Mark { label, pos } => {}
        TrailOpV::SegmentCreate { .. } => {}
        TrailOpV::SegmentModify { .. } => {}
    }
}

/// Reading back a just-written range returns exactly what was written.
pub proof fn lemma_read_back(m: Map<int, u8>, pos: int, data: Seq<u8>)
    requires
        in_i64(pos),
        data.len() <= 0x1_0000_0000_0000_0000,
    ensures
        read_seq(write_seq(m, pos, data), pos, data.len()) == data,
{
    assert forall|i: int| 0 <= i < data.len()
        implies read_seq(write_seq(m, pos, data), pos, data.len())[i] == data[i] by {
        lemma_wrap_exact(pos, i);
    }
    assert(read_seq(write_seq(m, pos, data), pos, data.len()) =~= data);
}

/// A write leaves reads of ranges it does not touch unchanged.
pub proof fn lemma_read_unwritten(m: Map<int, u8>, wpos: int, data: Seq<u8>, rpos: int, rlen: nat)
    requires
        in_i64(rpos),
        rlen <= 0x1_0000_0000_0000_0000,
        forall|i: int| 0 <= i < rlen ==> #[trigger] wdiff(wrap_pos(rpos + i), wpos) >= data.len(),
    ensures
        read_seq(write_seq(m, wpos, data), rpos, rlen) == read_seq(m, rpos, rlen),
{
    assert forall|i: int| 0 <= i < rlen
        implies read_seq(write_seq(m, wpos, data), rpos, rlen)[i] == read_seq(m, rpos, rlen)[i] by {
        lemma_wrap_exact(rpos, i);
    }
    assert(read_seq(write_seq(m, wpos, data), rpos, rlen) =~= read_seq(m, rpos, rlen));
}

/// Reads of positions that no surviving trail entry ever wrote return
/// zeros: the tape was created all-zero and every byte change is
/// journaled, so rewinding also restores this property.
pub proof fn lemma_unwritten_reads_zero(t: Tape, pos: int, len: nat)
    requires
        t.inv(),
        in_i64(pos),
        len <= 0x1_0000_0000_0000_0000,
        forall|i: int| 0 <= i < len ==> !trail_covers(t.trail_ops(), #[trigger] wrap_pos(pos + i)),
    ensures
        read_seq(t@.bytes, pos, len) == Seq::new(len, |i: int| 0u8),
{
    assert forall|i: int| 0 <= i < len implies read_seq(t@.bytes, pos, len)[i] == 0u8 by {
        lemma_wrap_exact(pos, i);
        let p = wrap_pos(pos + i);
        let j = t.snaps@.len() - 1;
        assert(t.trail_ops().take(j) =~= t.trail_ops());
        assert(t.snaps@[j].bytes[p] == 0);
        assert(t.snaps@[j] == t@);
    }
    assert(read_seq(t@.bytes, pos, len) =~= Seq::new(len, |i: int| 0u8));
}

/// A position not covered by a longer trail is not covered by a prefix.
proof fn lemma_covers_prefix(ops: Seq<TrailOpV>, more: Seq<TrailOpV>, j: int, p: int)
    requires
        0 <= j <= ops.len(),
        ops.len() <= more.len(),
        forall|i: int| 0 <= i < ops.len() ==> more[i] == ops[i],
        !trail_covers(more.take(j), p),
    ensures
        !trail_covers(ops.take(j), p),
{
    assert(ops.take(j) =~= more.take(j));
}

/// Extending the journal with one entry whose snapshot fits the chain.
proof fn lemma_chain_extend(
    past: Seq<TapeSnap>,
    ops: Seq<TrailOpV>,
    snew: TapeSnap,
    opv: TrailOpV,
    exact_old: bool,
    exact_new: bool,
)
    requires
        past.len() == ops.len() + 1,
        chain_hb(past, ops),
        exact_old ==> chain_all(past, ops),
        zero_hist(past, ops),
        undo_op(snew, opv).head == past.last().head,
        undo_op(snew, opv).bytes == past.last().bytes,
        exact_new ==> exact_old && op_reversible(past.last(), opv) && undo_op(snew, opv)
            == past.last(),
        forall|p: int| in_i64(p) && !trail_covers(ops.push(opv), p) ==> snew.bytes[p] == 0,
    ensures
        chain_hb(past.push(snew), ops.push(opv)),
        exact_new ==> chain_all(past.push(snew), ops.push(opv)),
        zero_hist(past.push(snew), ops.push(opv)),
{
    let past2 = past.push(snew);
    let ops2 = ops.push(opv);
    assert forall|i: int| 0 <= i < ops2.len() implies {
        let u = undo_op(past2[i + 1], #[trigger] ops2[i]);
        u.head == past2[i].head && u.bytes == past2[i].bytes
    } by {
        if i < ops.len() {
            assert(ops2[i] == ops[i]);
            assert(past2[i] == past[i] && past2[i + 1] == past[i + 1]);
        } else {
            assert(ops2[i] == opv && past2[i] == past.last() && past2[i + 1] == snew);
        }
    }
    if exact_new {
        assert forall|i: int| 0 <= i < ops2.len() implies op_reversible(
            past2[i],
            #[trigger] ops2[i],
        ) && undo_op(past2[i + 1], ops2[i]) == past2[i] by {
            if i < ops.len() {
                assert(ops2[i] == ops[i]);
                assert(past2[i] == past[i] && past2[i + 1] == past[i + 1]);
                assert(op_reversible(past[i], ops[i]) && undo_op(past[i + 1], ops[i]) == past[i]);
            } else {
                assert(ops2[i] == opv && past2[i] == past.last() && past2[i + 1] == snew);
            }
        }
    }
    assert forall|j: int, p: int|
        0 <= j < past2.len() && in_i64(p) && !trail_covers(ops2.take(j), p)
        implies #[trigger] past2[j].bytes[p] == 0 by {
        if j < past.len() {
            assert(past2[j] == past[j]);
            lemma_covers_prefix(ops, ops2, j, p);
            assert(past[j].bytes[p] == 0);
        } else {
            assert(past2[j] == snew);
            assert(ops2.take(j) =~= ops2);
        }
    }
}

/// Truncating the journal keeps the chain facts of the surviving prefix.
proof fn lemma_chain_truncate(past: Seq<TapeSnap>, ops: Seq<TrailOpV>, m: int, exact: bool)
    requires
        past.len() == ops.len() + 1,
        chain_hb(past, ops),
        exact ==> chain_all(past, ops),
        zero_hist(past, ops),
        0 <= m <= ops.len(),
    ensures
        chain_hb(past.take(m + 1), ops.take(m)),
        exact ==> chain_all(past.take(m + 1), ops.take(m)),
        zero_hist(past.take(m + 1), ops.take(m)),
{
    let past2 = past.take(m + 1);
    let ops2 = ops.take(m);
    assert forall|i: int| 0 <= i < ops2.len() implies {
        let u = undo_op(past2[i + 1], #[trigger] ops2[i]);
        u.head == past2[i].head && u.bytes == past2[i].bytes
    } by {
        assert(ops2[i] == ops[i] && past2[i] == past[i] && past2[i + 1] == past[i + 1]);
    }
    if exact {
        assert forall|i: int| 0 <= i < ops2.len() implies op_reversible(
            past2[i],
            #[trigger] ops2[i],
        ) && undo_op(past2[i + 1], ops2[i]) == past2[i] by {
            assert(ops2[i] == ops[i] && past2[i] == past[i] && past2[i + 1] == past[i + 1]);
            assert(op_reversible(past[i], ops[i]) && undo_op(past[i + 1], ops[i]) == past[i]);
        }
    }
    assert forall|j: int, p: int|
        0 <= j < past2.len() && in_i64(p) && !trail_covers(ops2.take(j), p)
        implies #[trigger] past2[j].bytes[p] == 0 by {
        assert(past2[j] == past[j]);
        assert(ops2.take(j) =~= ops.take(j));
        assert(past[j].bytes[p] == 0);
    }
}

/// Read `len` bytes starting at `pos`, walking the ring.
fn read_bytes_at(pages: &Vec<(i64, Page)>, pos: i64, len: usize) -> (r: Vec<u8>)
    requires
        pages_wf(pages@),
    ensures
        r@ == read_seq(bytes_of(pages@), pos as int, len as nat),
{
    let mut out: Vec<u8> = Vec::new();
    let mut cur: i64 = pos;
    let mut i: usize = 0;
    while i < len
        invariant
            pages_wf(pages@),
            0 <= i <= len,
            cur as int == wrap_pos(pos as int + i as int),
            out@.len() == i,
            forall|j: int| 0 <= j < i ==> out@[j] == bytes_of(pages@)[wrap_pos(pos as int + j)],
        decreases len - i,
    {
        let b = byte_at(pages, cur);
        out.push(b);
        cur = cur.wrapping_add(1);
        i += 1;
    }
    proof {
        assert(out@ =~= read_seq(bytes_of(pages@), pos as int, len as nat));
    }
    out
}

/// Write `data` starting at `pos`, walking the ring.
fn write_bytes_at(pages: &mut Vec<(i64, Page)>, pos: i64, data: &Vec<u8>)
    requires
        pages_wf(old(pages)@),
    ensures
        pages_wf(final(pages)@),
        bytes_of(final(pages)@) == write_seq(bytes_of(old(pages)@), pos as int, data@),
{
    let ghost m0 = bytes_of(pages@);
    proof {
        assert(m0.dom() =~= byte_dom());
        lemma_write_seq_empty(m0, pos as int, data@.take(0));
    }
    let mut cur: i64 = pos;
    let mut i: usize = 0;
    while i < data.len()
        invariant
            pages_wf(pages@),
            m0 == bytes_of(old(pages)@),
            m0.dom() == byte_dom(),
            0 <= i <= data@.len(),
            cur as int == wrap_pos(pos as int + i as int),
            bytes_of(pages@) == write_seq(m0, pos as int, data@.take(i as int)),
        decreases data@.len() - i,
    {
        store_byte(pages, cur, data[i]);
        proof {
            lemma_write_seq_step(m0, pos as int, data@, i as int);
        }
        cur = cur.wrapping_add(1);
        i += 1;
    }
    proof {
        assert(data@.take(data@.len() as int) =~= data@);
    }
}

impl Tape {
    /// A fresh tape: empty pages, head at zero, no marks, empty trail.
    pub fn new() -> (t: Tape)
        ensures
            t.inv(),
            t@ == (TapeSnap {
                head: 0,
                bytes: zero_bytes(),
                marks: Map::<Seq<char>, i64>::empty(),
            }),
            t.trail_ops() == Seq::<TrailOpV>::empty(),
            t.cp_map() == Map::<Seq<char>, usize>::empty(),
            t.past() == seq![t@],
            t.marks_ok(),
    {
        let mut t = Tape {
            pages: Vec::new(),
            head: 0,
            marks: Vec::new(),
            trail: Trail::new(),
            snaps: Ghost(Seq::empty()),
            marks_exact: Ghost(true),
        };
        proof {
            assert forall|p: int| in_i64(p) implies bytes_of(t.pages@)[p] == zero_bytes()[p] by {
                assert(t.pages@.len() == 0);
                assert(page_lookup(t.pages@, p / 4096) == None::<Seq<u8>>);
            }
            assert(bytes_of(t.pages@).dom() =~= zero_bytes().dom());
            assert(bytes_of(t.pages@) =~= zero_bytes());
            assert(t.trail_ops() =~= Seq::<TrailOpV>::empty());
        }
        let ghost snap0 = t@;
        proof {
            t.snaps@ = seq![snap0];
        }
        t
    }

    /// The head's position.
    pub fn position(&self) -> (r: i64)
        ensures
            r == self@.head,
    {
        self.head
    }

    /// How many entries the trail holds.
    pub fn trail_len(&self) -> (r: usize)
        ensures
            r == self.trail_ops().len(),
    {
        self.trail.operations.len()
    }

    /// The trail entry at the given index, oldest first.
    pub(crate) fn trail_entry(&self, i: usize) -> (r: &TrailOp)
        requires
            i < self.trail_ops().len(),
        ensures
            r@ == self.trail_ops()[i as int],
    {
        proof {
            assert(self.trail.operations@.len() == self.trail_ops().len());
            assert(self.trail_ops()[i as int] == self.trail.operations@[i as int]@);
        }
        &self.trail.operations[i]
    }

    /// The trail length a checkpoint recorded, if the name is known.
    pub(crate) fn checkpoint_len(&self, name: &str) -> (r: Option<usize>)
        requires
            self.inv(),
        ensures
            (match r {
                Some(l) => self.cp_map().dom().contains(name@) && l == self.cp_map()[name@],
                None => !self.cp_map().dom().contains(name@),
            }),
    {
        match assoc_index(&self.trail.checkpoints, name) {
            Some(i) => {
                proof {
                    lemma_assoc_at(self.trail.checkpoints@, i as int);
                }
                Some(self.trail.checkpoints[i].1)
            }
            None => None,
        }
    }

    /// The position a mark was recorded at, if the label is known.
    pub fn get_mark(&self, label: &str) -> (r: Option<i64>)
        requires
            self.inv(),
        ensures
            (match r {
                Some(p) => self@.marks.dom().contains(label@) && p == self@.marks[label@],
                None => !self@.marks.dom().contains(label@),
            }),
    {
        match assoc_index(&self.marks, label) {
            Some(i) => {
                proof {
                    lemma_assoc_at(self.marks@, i as int);
                }
                Some(self.marks[i].1)
            }
            None => None,
        }
    }

    /// Read `len` bytes at the head.  Reads do not move the head, do not
    /// journal, and see zeros wherever nothing was ever written.
    pub fn read(&self, len: usize) -> (r: Vec<u8>)
        requires
            self.inv(),
        ensures
            r@ == read_seq(self@.bytes, self@.head, len as nat),
    {
        read_bytes_at(&self.pages, self.head, len)
    }

    /// Read `len` bytes at an arbitrary position, without moving the head.
    pub fn read_at(&self, pos: i64, len: usize) -> (r: Vec<u8>)
        requires
            self.inv(),
        ensures
            r@ == read_seq(self@.bytes, pos as int, len as nat),
    {
        read_bytes_at(&self.pages, pos, len)
    }

    /// Write bytes at the head.  The head does not move; a single `Write`
    /// trail entry holding the range's old and new bytes is appended.
    pub fn write(&mut self, data: &[u8])
        requires
            old(self).inv(),
        ensures
            final(self).inv(),
            final(self)@ == (TapeSnap {
                bytes: write_seq(old(self)@.bytes, old(self)@.head, data@),
                ..old(self)@
            }),
            final(self).trail_ops() == old(self).trail_ops().push(
                TrailOpV::Write {
                    pos: old(self)@.head,
                    old: read_seq(old(self)@.bytes, old(self)@.head, data@.len()),
                    new: data@,
                },
            ),
            final(self).cp_map() == old(self).cp_map(),
            final(self).past() == old(self).past().push(final(self)@),
            final(self).marks_ok() == old(self).marks_ok(),
    {
        let h = self.head;
        let old_bytes = read_bytes_at(&self.pages, h, data.len());
        let new_bytes = slice_to_vec(data);
        let loop_bytes = slice_to_vec(data);
        let ghost opv = TrailOpV::Write {
            pos: h as int,
            old: old_bytes@,
            new: data@,
        };
        self.trail.operations.push(
            TrailOp::Write { pos: h, old: old_bytes, new: new_bytes },
        );
        write_bytes_at(&mut self.pages, h, &loop_bytes);
        proof {
            let ghost past0 = old(self).snaps@;
            let ghost ops0 = old(self).trail_ops();
            assert(self.trail_ops() =~= ops0.push(opv));
            let ghost snew = self@;
            assert(old(self).inv());
            assert(past0.last() == old(self)@);
            lemma_write_seq_undo(old(self)@.bytes, h as int, data@);
            assert(undo_op(snew, opv).bytes == old(self)@.bytes);
            assert forall|p: int| in_i64(p) && !trail_covers(ops0.push(opv), p)
                implies snew.bytes[p] == 0 by {
                lemma_mod_division_less_than_divisor(p - h as int, 0x1_0000_0000_0000_0000);
                assert(ops0.push(opv)[ops0.len() as int] == opv);
                assert(!op_writes(opv, p));
                assert forall|i: int| 0 <= i < ops0.len()
                    implies !op_writes(#[trigger] ops0[i], p) by {
                    assert(ops0.push(opv)[i] == ops0[i]);
                }
                assert(!trail_covers(ops0.take(ops0.len() as int), p)) by {
                    assert(ops0.take(ops0.len() as int) =~= ops0);
                }
                assert(past0.last().bytes[p] == 0);
            }
            lemma_chain_extend(past0, ops0, snew, opv, old(self).marks_ok(), old(self).marks_ok());
            self.snaps@ = past0.push(snew);
        }
    }

    /// Move the head to `pos`, journaling the motion.
    pub fn seek(&mut self, pos: i64)
        requires
            old(self).inv(),
        ensures
            final(self).inv(),
            final(self)@ == (TapeSnap { head: pos as int, ..old(self)@ }),
            final(self).trail_ops() == old(self).trail_ops().push(
                TrailOpV::Seek { old_pos: old(self)@.head, new_pos: pos as int },
            ),
            final(self).cp_map() == old(self).cp_map(),
            final(self).past() == old(self).past().push(final(self)@),
            final(self).marks_ok() == old(self).marks_ok(),
    {
        let ghost opv = TrailOpV::Seek { old_pos: self.head as int, new_pos: pos as int };
        self.trail.operations.push(TrailOp::Seek { old_pos: self.head, new_pos: pos });
        self.head = pos;
        proof {
            let ghost past0 = old(self).snaps@;
            let ghost ops0 = old(self).trail_ops();
            assert(self.trail_ops() =~= ops0.push(opv));
            let ghost snew = self@;
            assert forall|p: int| in_i64(p) && !trail_covers(ops0.push(opv), p)
                implies snew.bytes[p] == 0 by {
                assert forall|i: int| 0 <= i < ops0.len()
                    implies !op_writes(#[trigger] ops0[i], p) by {
                    assert(ops0.push(opv)[i] == ops0[i]);
                }
                assert(ops0.take(ops0.len() as int) =~= ops0);
                assert(past0.last().bytes[p] == 0);
            }
            lemma_chain_extend(past0, ops0, snew, opv, old(self).marks_ok(), old(self).marks_ok());
            self.snaps@ = past0.push(snew);
        }
    }

    /// Move the head by `delta`, wrapping at the ends of the range.
    pub fn advance(&mut self, delta: i64)
        requires
            old(self).inv(),
        ensures
            final(self).inv(),
            final(self)@ == (TapeSnap {
                head: wrap_pos(old(self)@.head + delta),
                ..old(self)@
            }),
            final(self).trail_ops() == old(self).trail_ops().push(
                TrailOpV::Seek {
                    old_pos: old(self)@.head,
                    new_pos: wrap_pos(old(self)@.head + delta),
                },
            ),
            final(self).cp_map() == old(self).cp_map(),
            final(self).past() == old(self).past().push(final(self)@),
            final(self).marks_ok() == old(self).marks_ok(),
    {
        let np = self.head.wrapping_add(delta);
        self.seek(np);
    }

    /// Record the head's position under `label`, journaling the entry.
    /// Re-marking an existing label is allowed, but undoing the entry then
    /// erases the label instead of restoring its old position.
    pub fn mark(&mut self, label: String)
        requires
            old(self).inv(),
        ensures
            final(self).inv(),
            final(self)@ == (TapeSnap {
                marks: old(self)@.marks.insert(label@, old(self)@.head as i64),
                ..old(self)@
            }),
            final(self).trail_ops() == old(self).trail_ops().push(
                TrailOpV::Mark { label: label@, pos: old(self)@.head },
            ),
            final(self).cp_map() == old(self).cp_map(),
            final(self).past() == old(self).past().push(final(self)@),
            final(self).marks_ok() == (old(self).marks_ok()
                && !old(self)@.marks.dom().contains(label@)),
    {
        let ghost opv = TrailOpV::Mark { label: label@, pos: self.head as int };
        let pos = self.head;
        let label2 = label.clone();
        self.trail.operations.push(TrailOp::Mark { label: label2, pos });
        let existed = assoc_set(&mut self.marks, label, pos);
        proof {
            let ghost past0 = old(self).snaps@;
            let ghost ops0 = old(self).trail_ops();
            assert(self.trail_ops() =~= ops0.push(opv));
            let ghost snew = self@;
            let ghost exact_new = old(self).marks_ok() && !old(self)@.marks.dom().contains(
                label@,
            );
            assert(undo_op(snew, opv).bytes == past0.last().bytes);
            if exact_new {
                assert(undo_op(snew, opv).marks =~= past0.last().marks);
            }
            assert forall|p: int| in_i64(p) && !trail_covers(ops0.push(opv), p)
                implies snew.bytes[p] == 0 by {
                assert forall|i: int| 0 <= i < ops0.len()
                    implies !op_writes(#[trigger] ops0[i], p) by {
                    assert(ops0.push(opv)[i] == ops0[i]);
                }
                assert(ops0.take(ops0.len() as int) =~= ops0);
                assert(past0.last().bytes[p] == 0);
            }
            lemma_chain_extend(past0, ops0, snew, opv, old(self).marks_ok(), exact_new);
            self.snaps@ = past0.push(snew);
            self.marks_exact@ = exact_new;
        }
    }

    /// Seek to the position a mark records; fails when the label is absent.
    pub fn seek_mark(&mut self, label: &str) -> (r: Result<(), VmError>)
        requires
            old(self).inv(),
        ensures
            final(self).inv(),
            old(self)@.marks.dom().contains(label@) ==> r == Ok::<(), VmError>(())
                && final(self)@ == (TapeSnap {
                    head: old(self)@.marks[label@] as int,
                    ..old(self)@
                })
                && final(self).trail_ops() == old(self).trail_ops().push(
                    TrailOpV::Seek {
                        old_pos: old(self)@.head,
                        new_pos: old(self)@.marks[label@] as int,
                    },
                )
                && final(self).past() == old(self).past().push(final(self)@),
            !old(self)@.marks.dom().contains(label@) ==> r == Err::<(), VmError>(
                VmError::UnknownMark,
            ) && *final(self) == *old(self),
            final(self).cp_map() == old(self).cp_map(),
            final(self).marks_ok() == old(self).marks_ok(),
    {
        let pos = match self.get_mark(label) {
            Some(p) => p,
            None => {
                return Err(VmError::UnknownMark);
            }
        };
        self.seek(pos);
        Ok(())
    }

    /// Record the current trail length under `name`; overwriting is allowed.
    pub fn checkpoint(&mut self, name: String)
        requires
            old(self).inv(),
        ensures
            final(self).inv(),
            final(self)@ == old(self)@,
            final(self).trail_ops() == old(self).trail_ops(),
            final(self).cp_map() == old(self).cp_map().insert(
                name@,
                old(self).trail_ops().len() as usize,
            ),
            final(self).past() == old(self).past(),
            final(self).marks_ok() == old(self).marks_ok(),
    {
        let len = self.trail.operations.len();
        assoc_set(&mut self.trail.checkpoints, name, len);
    }

    /// Append a segment-level entry to the trail.  The tape's own state is
    /// untouched; only the segment layer gives these entries meaning, and
    /// undoing them at the tape level is a no-op, which keeps the journal
    /// reversible.  The overlay's own rewinds remove the segments whose
    /// creation entries are popped.
    pub fn add_trail_op(&mut self, op: TrailOp)
        requires
            old(self).inv(),
            op@ is SegmentCreate || op@ is SegmentModify,
        ensures
            final(self).inv(),
            final(self)@ == old(self)@,
            final(self).trail_ops() == old(self).trail_ops().push(op@),
            final(self).cp_map() == old(self).cp_map(),
            final(self).past() == old(self).past().push(old(self)@),
            final(self).marks_ok() == old(self).marks_ok(),
    {
        let ghost opv = op@;
        self.trail.operations.push(op);
        proof {
            let ghost past0 = old(self).snaps@;
            let ghost ops0 = old(self).trail_ops();
            assert(self.trail_ops() =~= ops0.push(opv));
            let ghost snew = self@;
            assert(snew == old(self)@);
            assert forall|p: int| in_i64(p) && !trail_covers(ops0.push(opv), p)
                implies snew.bytes[p] == 0 by {
                assert forall|i: int| 0 <= i < ops0.len()
                    implies !op_writes(#[trigger] ops0[i], p) by {
                    assert(ops0.push(opv)[i] == ops0[i]);
                }
                assert(ops0.take(ops0.len() as int) =~= ops0);
                assert(past0.last().bytes[p] == 0);
            }
            lemma_chain_extend(past0, ops0, snew, opv, old(self).marks_ok(), old(self).marks_ok());
            self.snaps@ = past0.push(snew);
        }
    }

    /// Write at the head without journaling; rewinding uses this to put a
    /// range's old bytes back.
    fn write_raw(&mut self, data: &Vec<u8>)
        requires
            pages_wf(old(self).pages@),
        ensures
            pages_wf(final(self).pages@),
            bytes_of(final(self).pages@) == write_seq(
                bytes_of(old(self).pages@),
                old(self).head as int,
                data@,
            ),
            final(self).head == old(self).head,
            final(self).marks == old(self).marks,
            final(self).trail == old(self).trail,
            final(self).snaps == old(self).snaps,
            final(self).marks_exact == old(self).marks_exact,
    {
        let h = self.head;
        write_bytes_at(&mut self.pages, h, data);
    }

    /// Invert one popped trail entry.  Segment-level entries are no-ops
    /// here: a segment write is double-journaled, so its raw `Write` entry
    /// restores the bytes, and the overlay's own rewinds remove segments
    /// whose creation entries are popped.
    fn undo_operation(&mut self, op: TrailOp)
        requires
            pages_wf(old(self).pages@),
            keys_unique(old(self).marks@),
        ensures
            pages_wf(final(self).pages@),
            keys_unique(final(self).marks@),
            final(self)@ == undo_op(old(self)@, op@),
            final(self).trail == old(self).trail,
            final(self).snaps == old(self).snaps,
            final(self).marks_exact == old(self).marks_exact,
    {
        match op {
            TrailOp::Write { pos, old: old_data, new } => {
                self.head = pos;
                self.write_raw(&old_data);
            }
            TrailOp::Seek { old_pos, new_pos } => {
                self.head = old_pos;
            }
            TrailOp::Mark { label, pos } => {
                assoc_remove(&mut self.marks, label.as_str());
            }
            TrailOp::SegmentCreate { name, start, size } => {}
            TrailOp::SegmentModify { name, offset, old_data, new_data } => {}
        }
    }

    /// Pop and invert exactly `count` trail entries, newest first.
    fn pop_undo(&mut self, count: usize)
        requires
            old(self).inv(),
            count <= old(self).trail_ops().len(),
        ensures
            final(self).inv(),
            final(self).trail_ops() == old(self).trail_ops().take(
                old(self).trail_ops().len() - count,
            ),
            final(self).past() == old(self).past().take(
                old(self).trail_ops().len() - count + 1,
            ).update(old(self).trail_ops().len() - count, final(self)@),
            final(self)@.head == old(self).past()[old(self).trail_ops().len() - count].head,
            final(self)@.bytes == old(self).past()[old(self).trail_ops().len() - count].bytes,
            old(self).marks_ok() ==> final(self)@ == old(self).past()[old(self).trail_ops().len()
                - count],
            final(self).marks_ok() == old(self).marks_ok(),
            final(self).cp_map() == old(self).cp_map(),
            final(self).trail.checkpoints == old(self).trail.checkpoints,
    {
        let ghost ops0 = old(self).trail_ops();
        let ghost past0 = old(self).past();
        let ghost n0 = ops0.len() as int;
        proof {
            assert(past0.take(n0 + 1) =~= past0);
            assert(past0.take(n0 + 1).update(n0, self@) =~= past0);
        }
        let mut k: usize = 0;
        while k < count
            invariant
                old(self).inv(),
                count <= ops0.len(),
                ops0 == old(self).trail_ops(),
                past0 == old(self).past(),
                n0 == ops0.len() as int,
                0 <= k <= count,
                pages_wf(self.pages@),
                keys_unique(self.marks@),
                self.trail.checkpoints == old(self).trail.checkpoints,
                self.marks_exact == old(self).marks_exact,
                self.trail.operations@.len() == n0 - k,
                self.trail.operations@ == old(self).trail.operations@.take(n0 - k),
                self.trail_ops() == ops0.take(n0 - k),
                self.snaps@ == past0.take(n0 - k + 1).update(n0 - k, self@),
                self@.head == past0[n0 - k].head,
                self@.bytes == past0[n0 - k].bytes,
                old(self).marks_ok() ==> self@ == past0[n0 - k],
            decreases count - k,
        {
            let ghost m = n0 - k;
            let op = self.trail.operations.pop().unwrap();
            proof {
                assert(self.trail.operations@ =~= old(self).trail.operations@.take(m - 1));
                assert(self.trail_ops() =~= ops0.take(m - 1));
                assert(op == old(self).trail.operations@[m - 1]);
                assert(ops0[m - 1] == old(self).trail.operations@[m - 1]@);
                assert(op@ == ops0[m - 1]);
            }
            let ghost pre = self@;
            self.undo_operation(op);
            proof {
                assert(self@ == undo_op(pre, ops0[m - 1]));
                lemma_undo_hb(pre, past0[m], ops0[m - 1]);
                assert(undo_op(past0[m], ops0[m - 1]).head == past0[m - 1].head
                    && undo_op(past0[m], ops0[m - 1]).bytes == past0[m - 1].bytes);
                if old(self).marks_ok() {
                    assert(chain_all(past0, ops0));
                    assert(undo_op(past0[m], ops0[m - 1]) == past0[m - 1]);
                }
                self.snaps@ = past0.take(m).update(m - 1, self@);
            }
            k += 1;
        }
        proof {
            let ghost t = n0 - count;
            lemma_chain_truncate(past0, ops0, t, old(self).marks_ok());
            let ghost cur = self@;
            let ghost past2 = past0.take(t + 1).update(t, cur);
            let ghost ops2 = ops0.take(t);
            assert(self.snaps@ == past2);
            assert(past2.len() == t + 1);
            assert(past2.last() == cur);
            assert forall|i: int| 0 <= i < ops2.len() implies {
                let u = undo_op(past2[i + 1], #[trigger] ops2[i]);
                u.head == past2[i].head && u.bytes == past2[i].bytes
            } by {
                assert(ops2[i] == ops0[i]);
                assert(past2[i] == past0[i]);
                if i + 1 < t {
                    assert(past2[i + 1] == past0[i + 1]);
                } else {
                    assert(past2[i + 1] == cur);
                    lemma_undo_hb(cur, past0[t], ops0[i]);
                }
                assert(chain_hb(past0, ops0));
                assert(undo_op(past0[i + 1], ops0[i]).head == past0[i].head
                    && undo_op(past0[i + 1], ops0[i]).bytes == past0[i].bytes);
            }
            if old(self).marks_ok() {
                assert(cur == past0[t]);
                assert(past2 =~= past0.take(t + 1));
                assert(chain_all(past2, ops2));
            }
            assert forall|j: int, p: int|
                0 <= j < past2.len() && in_i64(p) && !trail_covers(ops2.take(j), p)
                implies #[trigger] past2[j].bytes[p] == 0 by {
                assert(ops2.take(j) =~= ops0.take(j));
                assert(past0[j].bytes[p] == 0);
                if j == t {
                    assert(past2[j].bytes == past0[t].bytes);
                } else {
                    assert(past2[j] == past0[j]);
                }
            }
            assert forall|j: int| 0 <= j < past2.len() implies (#[trigger] past2[j]).bytes.dom()
                == byte_dom() && in_i64(past2[j].head) by {
                if j == t {
                    assert(past2[j].bytes == past0[t].bytes && past2[j].head == past0[t].head);
                    assert(past0[t].bytes.dom() == byte_dom() && in_i64(past0[t].head));
                } else {
                    assert(past2[j] == past0[j]);
                    assert(past0[j].bytes.dom() == byte_dom() && in_i64(past0[j].head));
                }
            }
        }
    }

    /// How many entries remain if `n` are popped from a trail of `len`.
    pub open spec fn keep_after(len: nat, n: nat) -> int {
        if n <= len {
            len - n
        } else {
            0
        }
    }

    /// Pop and invert the newest `n` trail entries, or all of them if the
    /// trail is shorter.  Head and bytes return to the state recorded
    /// before those entries; so do the marks unless a surviving entry
    /// re-marked an existing label.
    pub fn rewind_n(&mut self, n: usize)
        requires
            old(self).inv(),
        ensures
            final(self).inv(),
            final(self).trail_ops() == old(self).trail_ops().take(
                Tape::keep_after(old(self).trail_ops().len(), n as nat),
            ),
            final(self).past() == old(self).past().take(
                Tape::keep_after(old(self).trail_ops().len(), n as nat) + 1,
            ).update(Tape::keep_after(old(self).trail_ops().len(), n as nat), final(self)@),
            final(self)@.head == old(self).past()[Tape::keep_after(
                old(self).trail_ops().len(),
                n as nat,
            )].head,
            final(self)@.bytes == old(self).past()[Tape::keep_after(
                old(self).trail_ops().len(),
                n as nat,
            )].bytes,
            old(self).marks_ok() ==> final(self)@ == old(self).past()[Tape::keep_after(
                old(self).trail_ops().len(),
                n as nat,
            )],
            final(self).marks_ok() == old(self).marks_ok(),
            final(self).cp_map() == old(self).cp_map(),
    {
        let len = self.trail.operations.len();
        let c = if n <= len {
            n
        } else {
            len
        };
        self.pop_undo(c);
    }

    /// The trail length a rewind to a checkpoint recorded at `l` keeps,
    /// given the trail currently holds `len` entries.  A checkpoint beyond
    /// the current length rewinds nothing.
    pub open spec fn keep_to(len: nat, l: nat) -> int {
        if l <= len {
            l as int
        } else {
            len as int
        }
    }

    /// Rewind to a named checkpoint: pop and invert every entry recorded
    /// after it.  Fails, changing nothing, when the name is unknown.
    pub fn rewind(&mut self, name: &str) -> (r: Result<(), VmError>)
        requires
            old(self).inv(),
        ensures
            final(self).inv(),
            !old(self).cp_map().dom().contains(name@) ==> r == Err::<(), VmError>(
                VmError::UnknownCheckpoint,
            ) && *final(self) == *old(self),
            old(self).cp_map().dom().contains(name@) ==> r == Ok::<(), VmError>(()) && {
                let t = Tape::keep_to(
                    old(self).trail_ops().len(),
                    old(self).cp_map()[name@] as nat,
                );
                &&& final(self).trail_ops() == old(self).trail_ops().take(t)
                &&& final(self).past() == old(self).past().take(t + 1).update(t, final(self)@)
                &&& final(self)@.head == old(self).past()[t].head
                &&& final(self)@.bytes == old(self).past()[t].bytes
                &&& (old(self).marks_ok() ==> final(self)@ == old(self).past()[t])
            },
            final(self).marks_ok() == old(self).marks_ok(),
            final(self).cp_map() == old(self).cp_map(),
    {
        let i = match assoc_index(&self.trail.checkpoints, name) {
            Some(i) => i,
            None => {
                return Err(VmError::UnknownCheckpoint);
            }
        };
        let l = self.trail.checkpoints[i].1;
        proof {
            lemma_assoc_at(self.trail.checkpoints@, i as int);
        }
        let len = self.trail.operations.len();
        let c = if l <= len {
            len - l
        } else {
            0
        };
        self.pop_undo(c);
        Ok(())
    }
}

} // verus!
