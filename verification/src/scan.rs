//! Building a slot table from the bytes of a file, one buffer at a time.

use crate::channels::{poll, Received};
use crate::events::{CallbackEvent, EventView};
use crate::slots::{bytes_end, lines_end, table_wf, ByteRange, GrabMetadata, LineRange, Slot};
use vstd::arithmetic::div_mod::{
    lemma_div_by_multiple, lemma_div_is_ordered, lemma_fundamental_div_mod_converse,
};
use crossbeam_channel::Receiver;
use vstd::prelude::*;

verus! {

/// The byte that ends a line for the scanner.
pub const NEWLINE: u8 = 0x0A;

/// The largest number of bytes that one slot covers unless the caller picks
/// another limit.
pub const DEFAULT_SLOT_SIZE: usize = 64 * 1024;

/// How many bytes `count_lines` looks at in one go.
pub const COUNT_CHUNK_SIZE: usize = 100 * 1024;

/// Number of positions of `bytes` that hold `needle`.
pub open spec fn count_byte(bytes: Seq<u8>, needle: u8) -> nat
    decreases bytes.len(),
{
    if bytes.len() == 0 {
        0
    } else {
        count_byte(bytes.drop_last(), needle) + if bytes.last() == needle {
            1nat
        } else {
            0nat
        }
    }
}

/// Counting is additive over concatenation.
pub proof fn lemma_count_concat(a: Seq<u8>, b: Seq<u8>, needle: u8)
    ensures
        count_byte(a + b, needle) == count_byte(a, needle) + count_byte(b, needle),
    decreases b.len(),
{
    if b.len() == 0 {
        assert(a + b == a);
    } else {
        assert((a + b).drop_last() == a + b.drop_last());
        lemma_count_concat(a, b.drop_last(), needle);
    }
}

/// A sequence holds a byte at most as often as it is long.
pub proof fn lemma_count_bounded(bytes: Seq<u8>, needle: u8)
    ensures
        count_byte(bytes, needle) <= bytes.len(),
    decreases bytes.len(),
{
    if bytes.len() > 0 {
        lemma_count_bounded(bytes.drop_last(), needle);
    }
}

/// Cutting a sequence at `mid` splits the count.
pub proof fn lemma_count_split(bytes: Seq<u8>, mid: int, needle: u8)
    requires
        0 <= mid <= bytes.len(),
    ensures
        count_byte(bytes, needle) == count_byte(bytes.take(mid), needle) + count_byte(
            bytes.skip(mid),
            needle,
        ),
{
    assert(bytes == bytes.take(mid) + bytes.skip(mid));
    lemma_count_concat(bytes.take(mid), bytes.skip(mid), needle);
}

/// A longer prefix counts at least as much as a shorter one, and the step
/// between them is the count of the bytes in between.
pub proof fn lemma_count_prefix_step(bytes: Seq<u8>, from: int, to: int, needle: u8)
    requires
        0 <= from <= to <= bytes.len(),
    ensures
        count_byte(bytes.take(to), needle) == count_byte(bytes.take(from), needle) + count_byte(
            bytes.subrange(from, to),
            needle,
        ),
        count_byte(bytes.take(to), needle) <= count_byte(bytes, needle),
{
    assert(bytes.take(to) == bytes.take(from) + bytes.subrange(from, to));
    lemma_count_concat(bytes.take(from), bytes.subrange(from, to), needle);
    lemma_count_split(bytes, to, needle);
}

/// Counts the occurrences of `needle` with `bytecount::count`, which walks
/// the slice and returns how many of its bytes equal the needle.
#[verifier::external_body]
fn count_occurrences(haystack: &[u8], needle: u8) -> (n: usize)
    ensures
        n == count_byte(haystack@, needle),
{
    bytecount::count(haystack, needle)
}

/// Number of slots of at most `size` bytes that cover `len` bytes.
pub open spec fn slot_count(len: nat, size: nat) -> nat {
    if len == 0 || size == 0 {
        0
    } else {
        ((len - 1) / (size as int) + 1) as nat
    }
}

/// Where slot `k` begins: `k * size`, capped at the end of the content.
pub open spec fn slot_start(len: nat, size: nat, k: nat) -> nat {
    if k * size <= len {
        k * size
    } else {
        len
    }
}

/// Slot `k` of the table that a scan in buffers of `size` bytes produces: it
/// covers the bytes from `k * size` on, and counts one line more than it holds
/// newlines.
pub open spec fn slot_at(content: Seq<u8>, size: nat, k: nat) -> Slot {
    let from = slot_start(content.len(), size, k);
    let to = slot_start(content.len(), size, k + 1);
    Slot {
        bytes: ByteRange { start: from as u64, end: to as u64 },
        lines: LineRange {
            start: (count_byte(content.take(from as int), NEWLINE) + k) as u64,
            end: (count_byte(content.take(to as int), NEWLINE) + k + 1) as u64,
        },
    }
}

/// The table that a scan of `content` in buffers of `size` bytes produces.
pub open spec fn table_of(content: Seq<u8>, size: nat) -> Seq<Slot> {
    Seq::new(slot_count(content.len(), size), |k: int| slot_at(content, size, k as nat))
}

/// The number of lines that such a scan counts: every newline, and one more
/// for every slot.
pub open spec fn line_total(content: Seq<u8>, size: nat) -> nat {
    count_byte(content, NEWLINE) + slot_count(content.len(), size)
}

/// `k` slots are needed exactly when `k - 1` slots fall short and `k` suffice.
pub proof fn lemma_slot_count_is(len: nat, size: nat, k: nat)
    requires
        size > 0,
        len > 0,
        k > 0,
        (k - 1) * size < len <= k * size,
    ensures
        slot_count(len, size) == k,
{
    let r = len - 1 - (k - 1) * size;
    assert(0 <= r < size) by (nonlinear_arith)
        requires
            r == len - 1 - (k - 1) * size,
            (k - 1) * size < len <= k * size,
    ;
    lemma_fundamental_div_mod_converse(len - 1, size as int, k - 1, r);
}

/// While `k` slots fall short of the content, more than `k` slots are needed.
pub proof fn lemma_slot_count_above(len: nat, size: nat, k: nat)
    requires
        size > 0,
        k * size < len,
    ensures
        k < slot_count(len, size),
{
    lemma_div_is_ordered((k * size) as int, len - 1, size as int);
    lemma_div_by_multiple(k as int, size as int);
}

/// A scan counts at most two lines for every byte: one for a newline, and
/// one for a slot, which holds a byte at least.
pub proof fn lemma_line_total_bound(content: Seq<u8>, size: nat)
    requires
        size > 0,
    ensures
        slot_count(content.len(), size) <= content.len(),
        line_total(content, size) <= 2 * content.len(),
{
    lemma_count_bounded(content, NEWLINE);
    if content.len() > 0 {
        vstd::arithmetic::div_mod::lemma_div_is_ordered_by_denominator(
            content.len() - 1,
            1,
            size as int,
        );
        vstd::arithmetic::div_mod::lemma_div_basics_2(content.len() - 1);
    }
}

/// Whether a scan of `content` in buffers of `slot_size` bytes counts no more
/// lines than a `usize` holds.
pub fn line_total_fits(content: &[u8], slot_size: usize) -> (fits: bool)
    requires
        slot_size > 0,
    ensures
        fits == (line_total(content@, slot_size as nat) <= usize::MAX),
{
    let len: usize = content.len();
    proof {
        lemma_line_total_bound(content@, slot_size as nat);
    }
    if len <= usize::MAX / 2 {
        return true;
    }
    let newlines: usize = count_lines(content);
    let slots: usize = (len - 1) / slot_size + 1;
    newlines <= usize::MAX - slots
}

/// The slot that a scanner appends for `chunk` after `slots`.
pub open spec fn next_slot(slots: Seq<Slot>, chunk: Seq<u8>) -> Slot {
    Slot {
        bytes: ByteRange {
            start: bytes_end(slots) as u64,
            end: (bytes_end(slots) + chunk.len()) as u64,
        },
        lines: LineRange {
            start: lines_end(slots) as u64,
            end: (lines_end(slots) + count_byte(chunk, NEWLINE) + 1) as u64,
        },
    }
}

/// What a scanner reports after it was offered a buffer.
#[derive(Debug, Clone, Copy, PartialEq, Eq, Structural)]
pub enum ScanStep {
    /// The buffer became a slot; the scan goes on.
    Continue,
    /// The buffer was empty: the input has ended.
    Finished,
    /// A stop was requested; the buffer was not looked at.
    Stopped,
}

/// The outcome of a job that can be stopped.
#[derive(Debug, Clone, PartialEq)]
pub enum ComputationResult<T> {
    Item(T),
    Stopped,
}

/// A scanner in the middle of a file: the slots so far and the two counters
/// that the next slot starts from.
#[derive(Debug)]
pub struct MetadataBuilder {
    slots: Vec<Slot>,
    byte_index: u64,
    processed_lines: u64,
}

/// What a scanner holds, as plain values.
pub struct BuilderView {
    pub slots: Seq<Slot>,
    pub byte_index: u64,
    pub processed_lines: u64,
}

impl View for MetadataBuilder {
    type V = BuilderView;

    closed spec fn view(&self) -> BuilderView {
        BuilderView {
            slots: self.slots@,
            byte_index: self.byte_index,
            processed_lines: self.processed_lines,
        }
    }
}

impl MetadataBuilder {
    /// The slots form a well-formed table and the counters stand at its end.
    pub open spec fn wf(&self) -> bool {
        &&& table_wf(self@.slots)
        &&& self@.byte_index as int == bytes_end(self@.slots)
        &&& self@.processed_lines as int == lines_end(self@.slots)
    }

    /// Whether the counters can take `chunk` without leaving `u64`.
    pub open spec fn fits(&self, chunk: Seq<u8>) -> bool {
        &&& self@.byte_index + chunk.len() <= u64::MAX
        &&& self@.processed_lines + count_byte(chunk, NEWLINE) + 1 <= u64::MAX
    }

    pub fn new() -> (b: Self)
        ensures
            b.wf(),
            b@.slots.len() == 0,
            b@.byte_index == 0,
            b@.processed_lines == 0,
    {
        MetadataBuilder { slots: Vec::new(), byte_index: 0, processed_lines: 0 }
    }

    /// How many bytes have become slots.
    pub fn byte_index(&self) -> (n: u64)
        ensures
            n == self@.byte_index,
    {
        self.byte_index
    }

    /// How many lines the slots count.
    pub fn processed_lines(&self) -> (n: u64)
        ensures
            n == self@.processed_lines,
    {
        self.processed_lines
    }

    /// How far the scan has come into a file of `total` bytes.
    pub fn progress(&self, total: u64) -> (event: CallbackEvent)
        ensures
            event@ == (EventView::Progress { done: self@.byte_index, total }),
    {
        CallbackEvent::Progress { done: self.byte_index, total }
    }

    /// Whether `push_chunk` and `advance` may be called with `chunk`.
    pub fn accepts(&self, chunk: &[u8]) -> (ok: bool)
        ensures
            ok == self.fits(chunk@),
    {
        let len: u64 = chunk.len() as u64;
        let newlines: u64 = count_occurrences(chunk, NEWLINE) as u64;
        len <= u64::MAX - self.byte_index && self.processed_lines < u64::MAX && newlines
            <= u64::MAX - self.processed_lines - 1
    }

    /// Appends the slot for one non-empty buffer.
    pub fn push_chunk(&mut self, chunk: &[u8])
        requires
            old(self).wf(),
            chunk@.len() > 0,
            old(self).fits(chunk@),
        ensures
            final(self).wf(),
            final(self)@.slots == old(self)@.slots.push(next_slot(old(self)@.slots, chunk@)),
            final(self)@.byte_index == old(self)@.byte_index + chunk@.len(),
            final(self)@.processed_lines == old(self)@.processed_lines + count_byte(
                chunk@,
                NEWLINE,
            ) + 1,
    {
        let len: u64 = chunk.len() as u64;
        let newlines: u64 = count_occurrences(chunk, NEWLINE) as u64;
        let line_count: u64 = newlines + 1;
        let slot = Slot {
            bytes: ByteRange::new(self.byte_index, self.byte_index + len),
            lines: LineRange::new(self.processed_lines, self.processed_lines + line_count),
        };
        let ghost before = self.slots@;
        assert(slot == next_slot(before, chunk@));
        self.slots.push(slot);
        self.byte_index = self.byte_index + len;
        self.processed_lines = self.processed_lines + line_count;
        proof {
            let after = self.slots@;
            assert forall|k: int| 0 <= k < after.len() implies (#[trigger] after[k]).wf() by {
                if k < before.len() {
                    assert(after[k] == before[k]);
                }
            }
            assert forall|i: int, j: int| 0 <= i && j == i + 1 && j < after.len() implies {
                &&& (#[trigger] after[i]).bytes.end == (#[trigger] after[j]).bytes.start
                &&& after[i].lines.end == after[j].lines.start
            } by {
                if j < before.len() {
                    assert(after[i] == before[i] && after[j] == before[j]);
                } else {
                    assert(after[i] == before.last());
                }
            }
            if before.len() > 0 {
                assert(after[0] == before[0]);
            }
        }
    }

    /// One turn of the scan.  A requested stop wins over everything else and
    /// leaves the scanner as it was; an empty buffer ends the input; any other
    /// buffer becomes the next slot.
    pub fn advance(&mut self, stop_requested: bool, chunk: &[u8]) -> (step: ScanStep)
        requires
            old(self).wf(),
            !stop_requested && chunk@.len() > 0 ==> old(self).fits(chunk@),
        ensures
            final(self).wf(),
            stop_requested ==> step == ScanStep::Stopped && final(self)@ == old(self)@,
            !stop_requested && chunk@.len() == 0 ==> step == ScanStep::Finished && final(self)@
                == old(self)@,
            !stop_requested && chunk@.len() > 0 ==> step == ScanStep::Continue
                && final(self)@.slots == old(self)@.slots.push(
                next_slot(old(self)@.slots, chunk@),
            ),
    {
        if stop_requested {
            return ScanStep::Stopped;
        }
        if chunk.len() == 0 {
            return ScanStep::Finished;
        }
        self.push_chunk(chunk);
        ScanStep::Continue
    }

    /// Whether `finish` may be called: the line count fits in `usize`.
    pub fn can_finish(&self) -> (ok: bool)
        ensures
            ok == (self@.processed_lines <= usize::MAX),
    {
        self.processed_lines <= usize::MAX as u64
    }

    /// The finished table.
    pub fn finish(self) -> (md: GrabMetadata)
        requires
            self.wf(),
            self@.processed_lines <= usize::MAX,
        ensures
            md.wf(),
            md.slots@ == self@.slots,
            md.line_count == self@.processed_lines,
    {
        GrabMetadata { slots: self.slots, line_count: self.processed_lines as usize }
    }
}

/// Whether what a poll of the stop signal gave asks the scan to stop: a
/// message does, and so does a signal that nobody can send on any more.
pub fn stop_requested(polled: Option<Received<()>>) -> (stop: bool)
    ensures
        stop == (polled matches Some(got) && !(got is Empty)),
{
    match polled {
        Some(Received::Item(_)) => true,
        Some(Received::Disconnected) => true,
        Some(Received::Empty) => false,
        None => false,
    }
}

/// Polls the stop signal, if there is one.
pub fn check_if_stop_was_requested(shutdown_receiver: Option<&Receiver<()>>) -> (stop: bool)
    ensures
        shutdown_receiver is None ==> !stop,
{
    match shutdown_receiver {
        Some(receiver) => stop_requested(Some(poll(receiver))),
        None => stop_requested(None),
    }
}

impl GrabMetadata {
    /// Scans `content` in buffers of `slot_size` bytes, the last one shorter
    /// where the content does not fill it.  `should_stop` is asked before each
    /// buffer and once more before the end of the content is taken for the end
    /// of the scan.  As soon as it says yes, the scan ends: no further buffer
    /// is looked at and no table is returned, not even a part of one.
    ///
    /// So a scan under a signal that is raised is stopped, at the first
    /// question; and a scan that is stopped was told to stop.
    pub fn scan_with<F: Fn() -> bool>(content: &[u8], slot_size: usize, should_stop: &F) -> (r:
        ComputationResult<GrabMetadata>)
        requires
            slot_size > 0,
            line_total(content@, slot_size as nat) <= usize::MAX,
            call_requires(*should_stop, ()),
        ensures
            r is Stopped ==> call_ensures(*should_stop, (), true),
            r is Item ==> call_ensures(*should_stop, (), false),
            r matches ComputationResult::Item(md) ==> md.wf() && md.slots@ == table_of(
                content@,
                slot_size as nat,
            ) && md.line_count == line_total(content@, slot_size as nat),
    {
        let len: usize = content.len();
        let ghost size = slot_size as nat;
        let mut builder = MetadataBuilder::new();
        let mut offset: usize = 0;
        let ghost mut k: nat = 0;
        assert(content@.take(0) == Seq::<u8>::empty());
        while offset < len
            invariant
                builder.wf(),
                call_requires(*should_stop, ()),
                slot_size > 0,
                size == slot_size as nat,
                len == content@.len(),
                line_total(content@, size) <= usize::MAX,
                offset <= len,
                offset < len ==> offset == k * size,
                offset == len ==> len <= k * size && (k > 0 ==> (k - 1) * size < len),
                builder@.slots.len() == k,
                builder@.byte_index == offset,
                builder@.processed_lines == count_byte(content@.take(offset as int), NEWLINE)
                    + k,
                forall|j: int| 0 <= j < k ==> builder@.slots[j] == slot_at(content@, size, j as nat),
            decreases len - offset,
        {
            let end: usize = if len - offset > slot_size {
                offset + slot_size
            } else {
                len
            };
            let chunk: &[u8] = &content[offset..end];
            proof {
                assert(chunk@ == content@.subrange(offset as int, end as int));
                lemma_count_prefix_step(content@, offset as int, end as int, NEWLINE);
                lemma_slot_count_above(len as nat, size, k);
                assert((k + 1) * size == k * size + size) by (nonlinear_arith);
                assert(slot_start(content@.len(), size, k) == offset);
                assert(slot_start(content@.len(), size, k + 1) == end);
            }
            let ghost before = builder@.slots;
            let stop: bool = should_stop();
            let step: ScanStep = builder.advance(stop, chunk);
            if step == ScanStep::Stopped {
                return ComputationResult::Stopped;
            }
            proof {
                assert(next_slot(before, chunk@) == slot_at(content@, size, k));
                assert forall|j: int| 0 <= j < k + 1 implies builder@.slots[j] == slot_at(
                    content@,
                    size,
                    j as nat,
                ) by {
                    if j < k {
                        assert(builder@.slots[j] == before[j]);
                    }
                }
                k = k + 1;
            }
            offset = end;
        }
        let stop: bool = should_stop();
        let end_of_input: &[u8] = &content[len..len];
        let last: ScanStep = builder.advance(stop, end_of_input);
        if last == ScanStep::Stopped {
            return ComputationResult::Stopped;
        }
        proof {
            assert(content@.take(len as int) == content@);
            if len > 0 {
                lemma_slot_count_is(len as nat, size, k);
            }
            assert(builder@.slots =~= table_of(content@, size));
        }
        ComputationResult::Item(builder.finish())
    }

    /// Scans `content` in buffers of `slot_size` bytes under the stop signal
    /// of `shutdown_receiver`, which is polled before each buffer and once
    /// more at the end of the content.
    pub fn scan_content(
        content: &[u8],
        slot_size: usize,
        shutdown_receiver: Option<&Receiver<()>>,
    ) -> (r: ComputationResult<GrabMetadata>)
        requires
            slot_size > 0,
            line_total(content@, slot_size as nat) <= usize::MAX,
        ensures
            shutdown_receiver is None ==> r is Item,
            r matches ComputationResult::Item(md) ==> md.wf() && md.slots@ == table_of(
                content@,
                slot_size as nat,
            ) && md.line_count == line_total(content@, slot_size as nat),
    {
        let should_stop = || -> (stop: bool)
            ensures
                shutdown_receiver is None ==> !stop,
            { check_if_stop_was_requested(shutdown_receiver) };
        GrabMetadata::scan_with(content, slot_size, &should_stop)
    }

    /// Scans `content` in buffers of `slot_size` bytes from its first byte to
    /// its last.
    pub fn from_content(content: &[u8], slot_size: usize) -> (md: GrabMetadata)
        requires
            slot_size > 0,
            line_total(content@, slot_size as nat) <= usize::MAX,
        ensures
            md.wf(),
            md.slots@ == table_of(content@, slot_size as nat),
            md.line_count == line_total(content@, slot_size as nat),
    {
        match GrabMetadata::scan_content(content, slot_size, None) {
            ComputationResult::Item(md) => md,
            ComputationResult::Stopped => vstd::pervasive::unreached(),
        }
    }
}

/// Counts the newlines of `content`, looking at `COUNT_CHUNK_SIZE` bytes at a
/// time.
pub fn count_lines(content: &[u8]) -> (count: usize)
    ensures
        count == count_byte(content@, NEWLINE),
{
    let len: usize = content.len();
    let mut count: usize = 0;
    let mut offset: usize = 0;
    assert(content@.take(0) == Seq::<u8>::empty());
    while offset < len
        invariant
            len == content@.len(),
            offset <= len,
            count == count_byte(content@.take(offset as int), NEWLINE),
        decreases len - offset,
    {
        let end: usize = if len - offset > COUNT_CHUNK_SIZE {
            offset + COUNT_CHUNK_SIZE
        } else {
            len
        };
        let chunk: &[u8] = &content[offset..end];
        proof {
            assert(chunk@ == content@.subrange(offset as int, end as int));
            lemma_count_prefix_step(content@, offset as int, end as int, NEWLINE);
            lemma_count_bounded(content@.take(end as int), NEWLINE);
        }
        count = count + count_occurrences(chunk, NEWLINE);
        offset = end;
    }
    assert(content@.take(len as int) == content@);
    count
}

} // verus!
