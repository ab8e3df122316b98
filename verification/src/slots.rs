//! The slot table: byte spans of a file and the line numbers that begin in each.

use vstd::prelude::*;

verus! {

/// Half-open interval `[start, end)` of byte offsets.
#[derive(Debug, Clone, Copy, PartialEq, Eq, Structural)]
pub struct ByteRange {
    pub start: u64,
    pub end: u64,
}

impl ByteRange {
    /// `start <= end`.
    pub open spec fn wf(&self) -> bool {
        self.start <= self.end
    }

    /// Number of bytes covered.
    pub open spec fn spec_len(&self) -> int {
        self.end - self.start
    }

    pub fn new(start: u64, end: u64) -> (r: Self)
        ensures
            r.start == start,
            r.end == end,
    {
        ByteRange { start, end }
    }
}

/// Half-open interval `[start, end)` of line numbers.
#[derive(Debug, Clone, Copy, PartialEq, Eq, Structural)]
pub struct LineRange {
    pub start: u64,
    pub end: u64,
}

impl LineRange {
    /// A range that names at least one line.
    pub open spec fn wf(&self) -> bool {
        self.start < self.end
    }

    /// Number of lines covered.
    pub open spec fn spec_len(&self) -> int {
        self.end - self.start
    }

    /// Whether `line` lies in the range.
    pub open spec fn contains(&self, line: u64) -> bool {
        self.start <= line < self.end
    }

    pub fn new(start: u64, end: u64) -> (r: Self)
        ensures
            r.start == start,
            r.end == end,
    {
        LineRange { start, end }
    }

    /// The range that holds the lines `first ..= last`.
    pub fn from_inclusive(first: u64, last: u64) -> (r: Self)
        requires
            last < u64::MAX,
        ensures
            r.start == first,
            r.end == last + 1,
    {
        LineRange { start: first, end: last + 1 }
    }
}

/// A segment of the file and the lines whose first byte lies in it.
#[derive(Debug, Clone, Copy, PartialEq, Eq, Structural)]
pub struct Slot {
    pub bytes: ByteRange,
    pub lines: LineRange,
}

impl Slot {
    /// Both the byte span and the line span are non-empty.
    pub open spec fn wf(&self) -> bool {
        &&& self.bytes.start < self.bytes.end
        &&& self.lines.start < self.lines.end
    }

    pub fn byte_count(&self) -> (n: u64)
        requires
            self.bytes.wf(),
        ensures
            n == self.bytes.spec_len(),
    {
        self.bytes.end - self.bytes.start
    }

    pub fn line_count(&self) -> (n: u64)
        requires
            self.lines.start <= self.lines.end,
        ensures
            n == self.lines.spec_len(),
    {
        self.lines.end - self.lines.start
    }
}

/// Consecutive slots share their byte boundary and their line boundary.
pub open spec fn contiguous(slots: Seq<Slot>) -> bool {
    forall|i: int, j: int|
        0 <= i && j == i + 1 && j < slots.len() ==> {
            &&& (#[trigger] slots[i]).bytes.end == (#[trigger] slots[j]).bytes.start
            &&& slots[i].lines.end == slots[j].lines.start
        }
}

/// The line number one past the last slot, `0` for an empty table.
pub open spec fn lines_end(slots: Seq<Slot>) -> int {
    if slots.len() == 0 {
        0
    } else {
        slots.last().lines.end as int
    }
}

/// The byte offset one past the last slot, `0` for an empty table.
pub open spec fn bytes_end(slots: Seq<Slot>) -> int {
    if slots.len() == 0 {
        0
    } else {
        slots.last().bytes.end as int
    }
}

/// A table that partitions the bytes `[0, bytes_end)` and the lines
/// `[0, lines_end)` into non-empty, ascending, gap-free slots.
pub open spec fn table_wf(slots: Seq<Slot>) -> bool {
    &&& forall|k: int| 0 <= k < slots.len() ==> (#[trigger] slots[k]).wf()
    &&& slots.len() > 0 ==> slots[0].bytes.start == 0 && slots[0].lines.start == 0
    &&& contiguous(slots)
}

/// The sum of the slots' own line counts.
pub open spec fn sum_line_counts(slots: Seq<Slot>) -> int
    decreases slots.len(),
{
    if slots.len() == 0 {
        0
    } else {
        sum_line_counts(slots.drop_last()) + slots.last().lines.spec_len()
    }
}

/// The sum of the slots' own byte counts.
pub open spec fn sum_byte_counts(slots: Seq<Slot>) -> int
    decreases slots.len(),
{
    if slots.len() == 0 {
        0
    } else {
        sum_byte_counts(slots.drop_last()) + slots.last().bytes.spec_len()
    }
}

/// In a well-formed table both spans ascend with the slot number, and a later
/// slot begins no earlier than an earlier one ends.
pub proof fn lemma_table_ascending(slots: Seq<Slot>, i: int, j: int)
    requires
        table_wf(slots),
        0 <= i <= j < slots.len(),
    ensures
        slots[i].lines.start <= slots[j].lines.start,
        slots[i].lines.end <= slots[j].lines.end,
        slots[i].bytes.start <= slots[j].bytes.start,
        slots[i].bytes.end <= slots[j].bytes.end,
        i < j ==> slots[i].lines.end <= slots[j].lines.start,
        i < j ==> slots[i].bytes.end <= slots[j].bytes.start,
    decreases j - i,
{
    if i < j {
        lemma_table_ascending(slots, i, j - 1);
        assert(slots[j - 1].wf());
        assert(slots[j].wf());
        assert(slots[j - 1].lines.end == slots[j].lines.start);
    }
}

/// A prefix of a well-formed table is well formed.
pub proof fn lemma_table_prefix(slots: Seq<Slot>, n: int)
    requires
        table_wf(slots),
        0 <= n <= slots.len(),
    ensures
        table_wf(slots.take(n)),
{
    let p = slots.take(n);
    assert forall|i: int, j: int| 0 <= i && j == i + 1 && j < p.len() implies {
        &&& (#[trigger] p[i]).bytes.end == (#[trigger] p[j]).bytes.start
        &&& p[i].lines.end == p[j].lines.start
    } by {
        assert(p[i] == slots[i] && p[j] == slots[j]);
    }
    assert forall|k: int| 0 <= k < p.len() implies (#[trigger] p[k]).wf() by {
        assert(p[k] == slots[k]);
    }
}

/// The table's total is the sum of what each slot counts: the line spans
/// telescope, and so do the byte spans.
pub proof fn lemma_totals_are_sums(slots: Seq<Slot>)
    requires
        table_wf(slots),
    ensures
        lines_end(slots) == sum_line_counts(slots),
        bytes_end(slots) == sum_byte_counts(slots),
    decreases slots.len(),
{
    if slots.len() > 0 {
        let n = slots.len() - 1;
        lemma_table_prefix(slots, n);
        assert(slots.drop_last() == slots.take(n));
        lemma_totals_are_sums(slots.drop_last());
        if n > 0 {
            assert(slots.drop_last().last() == slots[n - 1]);
            assert(slots[n - 1].lines.end == slots[n].lines.start);
        }
    }
}

/// The slot table of one file, with the number of lines that it counts.
#[derive(Debug, Clone, PartialEq)]
pub struct GrabMetadata {
    pub slots: Vec<Slot>,
    pub line_count: usize,
}

impl GrabMetadata {
    /// The slots form a well-formed table and `line_count` is where it ends.
    pub open spec fn wf(&self) -> bool {
        &&& table_wf(self.slots@)
        &&& self.line_count as int == lines_end(self.slots@)
    }

    /// Whether slot `k` exists and holds `line`.
    pub open spec fn holds_line(&self, k: int, line: u64) -> bool {
        0 <= k < self.slots@.len() && self.slots@[k].lines.contains(line)
    }

    /// The slot whose line span holds `line`, if there is one.
    pub open spec fn slot_of_line(&self, line: u64) -> Option<Slot> {
        if exists|k: int| self.holds_line(k, line) {
            Some(self.slots@[choose|k: int| self.holds_line(k, line)])
        } else {
            None
        }
    }

    /// At most one slot holds a given line.
    pub proof fn lemma_slot_unique(&self, a: int, b: int, line: u64)
        requires
            self.wf(),
            self.holds_line(a, line),
            self.holds_line(b, line),
        ensures
            a == b,
    {
        if a < b {
            lemma_table_ascending(self.slots@, a, b);
        } else if b < a {
            lemma_table_ascending(self.slots@, b, a);
        }
    }

    /// Every line below `line_count` lies in some slot, and no other line does.
    pub proof fn lemma_lines_covered(&self, line: u64)
        requires
            self.wf(),
        ensures
            (exists|k: int| self.holds_line(k, line)) <==> line < self.line_count,
            self.slot_of_line(line) is Some <==> line < self.line_count,
    {
        let slots = self.slots@;
        if exists|k: int| self.holds_line(k, line) {
            let k = choose|k: int| self.holds_line(k, line);
            lemma_table_ascending(slots, k, slots.len() - 1);
        }
        if line < self.line_count {
            Self::lemma_find(slots, slots.len() as int, line);
            let k = choose|k: int| 0 <= k < slots.len() && slots[k].lines.contains(line);
            assert(self.holds_line(k, line));
        }
    }

    proof fn lemma_find(slots: Seq<Slot>, n: int, line: u64)
        requires
            table_wf(slots),
            0 < n <= slots.len(),
            line < slots[n - 1].lines.end,
        ensures
            exists|k: int| 0 <= k < slots.len() && (#[trigger] slots[k]).lines.contains(line),
        decreases n,
    {
        if slots[n - 1].lines.start <= line {
            assert(slots[n - 1].lines.contains(line));
        } else {
            if n == 1 {
                assert(slots[0].lines.start == 0);
            } else {
                assert(slots[n - 2].lines.end == slots[n - 1].lines.start);
                Self::lemma_find(slots, n - 1, line);
            }
        }
    }

    /// Checks the table's invariants.
    pub fn is_well_formed(&self) -> (ok: bool)
        ensures
            ok == self.wf(),
    {
        let n: usize = self.slots.len();
        if n == 0 {
            return self.line_count == 0;
        }
        let first: Slot = self.slots[0];
        if first.bytes.start != 0 || first.lines.start != 0 {
            return false;
        }
        let mut k: usize = 0;
        while k < n
            invariant
                0 <= k <= n,
                n == self.slots@.len(),
                forall|m: int| 0 <= m < k ==> (#[trigger] self.slots@[m]).wf(),
                forall|i: int, j: int|
                    0 <= i && j == i + 1 && j < k ==> {
                        &&& (#[trigger] self.slots@[i]).bytes.end == (#[trigger] self.slots@[
                            j
                        ]).bytes.start
                        &&& self.slots@[i].lines.end == self.slots@[j].lines.start
                    },
            decreases n - k,
        {
            let slot: Slot = self.slots[k];
            if slot.bytes.start >= slot.bytes.end || slot.lines.start >= slot.lines.end {
                assert(!self.slots@[k as int].wf());
                return false;
            }
            if k > 0 {
                let before: Slot = self.slots[k - 1];
                if before.bytes.end != slot.bytes.start || before.lines.end != slot.lines.start {
                    return false;
                }
            }
            k = k + 1;
        }
        let last: Slot = self.slots[n - 1];
        if last.lines.end > usize::MAX as u64 {
            return false;
        }
        self.line_count as u64 == last.lines.end
    }

    /// Finds the slot that holds `line_index` by bisection.
    pub fn identify_slot(&self, line_index: u64) -> (r: Option<Slot>)
        requires
            self.wf(),
        ensures
            r == self.slot_of_line(line_index),
            r is Some <==> line_index < self.line_count,
            r matches Some(slot) ==> slot.lines.contains(line_index) && exists|k: int|
                self.holds_line(k, line_index) && self.slots@[k] == slot,
    {
        let n: usize = self.slots.len();
        let mut lo: usize = 0;
        let mut hi: usize = n;
        while lo < hi
            invariant
                self.wf(),
                n == self.slots@.len(),
                0 <= lo <= hi <= n,
                forall|k: int| 0 <= k < lo ==> (#[trigger] self.slots@[k]).lines.end <= line_index,
                forall|k: int|
                    hi <= k < n ==> line_index < (#[trigger] self.slots@[k]).lines.start,
            decreases hi - lo,
        {
            let mid: usize = lo + (hi - lo) / 2;
            let slot: Slot = self.slots[mid];
            if line_index < slot.lines.start {
                proof {
                    assert forall|k: int| mid <= k < n implies line_index < (
                    #[trigger] self.slots@[k]).lines.start by {
                        lemma_table_ascending(self.slots@, mid as int, k);
                    }
                }
                hi = mid;
            } else if line_index >= slot.lines.end {
                proof {
                    assert forall|k: int| 0 <= k < mid + 1 implies (
                    #[trigger] self.slots@[k]).lines.end <= line_index by {
                        lemma_table_ascending(self.slots@, k, mid as int);
                    }
                }
                lo = mid + 1;
            } else {
                proof {
                    assert(self.holds_line(mid as int, line_index));
                    let c = choose|k: int| self.holds_line(k, line_index);
                    self.lemma_slot_unique(mid as int, c, line_index);
                    self.lemma_lines_covered(line_index);
                }
                return Some(slot);
            }
        }
        proof {
            self.lemma_lines_covered(line_index);
            assert forall|k: int| !self.holds_line(k, line_index) by {
                if 0 <= k < n {
                    if k < lo {
                        assert(self.slots@[k].lines.end <= line_index);
                    } else {
                        assert(line_index < self.slots@[k].lines.start);
                    }
                }
            }
        }
        None
    }
}

} // verus!
