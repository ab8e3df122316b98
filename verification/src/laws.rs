//! What holds of every scan and of every read.

use crate::lines::{
    clip, count_breaks, is_break, lemma_split_len, lemma_window_lines, split_lines,
    CARRIAGE_RETURN,
};
use crate::scan::{
    count_byte, lemma_count_bounded, lemma_count_concat, lemma_count_prefix_step,
    lemma_slot_count_is, line_total, slot_at, slot_count, slot_start, table_of, NEWLINE,
};
use crate::search::{coalesce, position_of, results_text};
use crate::slots::{
    bytes_end, contiguous, lemma_table_ascending, lemma_totals_are_sums, lines_end,
    sum_line_counts, table_wf, GrabMetadata, LineRange, Slot,
};
use crate::text::{decimal_text, is_digit, lemma_decimal_round_trip, lemma_decimal_text_digits};
use vstd::utf8::{encode_utf8, is_ascii_chars, is_ascii_chars_encode_utf8};
use vstd::arithmetic::div_mod::lemma_fundamental_div_mod;
use vstd::prelude::*;

verus! {

/// Every slot but the last is full, and the last one is not empty: slot `k`
/// of a scan begins at `k * size`, before the end of the content, and the
/// slots together reach the end.
pub proof fn lemma_slot_starts(len: nat, size: nat, k: nat)
    requires
        size > 0,
        k <= slot_count(len, size),
    ensures
        k < slot_count(len, size) ==> slot_start(len, size, k) == k * size && k * size < len,
        k == slot_count(len, size) ==> slot_start(len, size, k) == len,
        slot_start(len, size, k) <= len,
{
    if len > 0 {
        let q = (len - 1) / (size as int);
        lemma_fundamental_div_mod(len - 1, size as int);
        assert(0 <= (len - 1) % (size as int) < size);
        if k < slot_count(len, size) {
            assert(k * size <= q * size) by (nonlinear_arith)
                requires
                    k <= q,
                    size > 0,
            ;
            assert(size * q == q * size) by (nonlinear_arith);
        } else {
            assert(k * size == size * q + size) by (nonlinear_arith)
                requires
                    k == q + 1,
            ;
        }
    }
}

/// Every scan yields a well-formed table: its slots are non-empty, begin
/// at byte 0 and line 0, and each begins where the one before it ends, in
/// bytes and in lines.  The table ends where the content ends, at the line
/// count of the scan.
pub proof fn lemma_scan_table_wf(content: Seq<u8>, size: nat)
    requires
        size > 0,
        content.len() <= u64::MAX,
        line_total(content, size) <= u64::MAX,
    ensures
        table_wf(table_of(content, size)),
        contiguous(table_of(content, size)),
        bytes_end(table_of(content, size)) == content.len(),
        lines_end(table_of(content, size)) == line_total(content, size),
{
    let table = table_of(content, size);
    let n = slot_count(content.len(), size);
    let len = content.len();
    assert forall|k: int| 0 <= k < n implies {
        &&& (#[trigger] table[k]).wf()
        &&& table[k].bytes.start == slot_start(len, size, k as nat)
        &&& table[k].bytes.end == slot_start(len, size, (k + 1) as nat)
        &&& table[k].lines.start == count_byte(
            content.take(slot_start(len, size, k as nat) as int),
            NEWLINE,
        ) + k
        &&& table[k].lines.end == count_byte(
            content.take(slot_start(len, size, (k + 1) as nat) as int),
            NEWLINE,
        ) + k + 1
    } by {
        let from = slot_start(len, size, k as nat);
        let to = slot_start(len, size, (k + 1) as nat);
        lemma_slot_starts(len, size, k as nat);
        lemma_slot_starts(len, size, (k + 1) as nat);
        assert(from < to) by {
            assert((k + 1) * size == k * size + size) by (nonlinear_arith);
        }
        lemma_count_prefix_step(content, from as int, to as int, NEWLINE);
        lemma_count_prefix_step(content, 0, from as int, NEWLINE);
        assert(table[k] == slot_at(content, size, k as nat));
    }
    assert forall|i: int, j: int| 0 <= i && j == i + 1 && j < n implies {
        &&& (#[trigger] table[i]).bytes.end == (#[trigger] table[j]).bytes.start
        &&& table[i].lines.end == table[j].lines.start
    } by {
        assert(table[i].wf() && table[j].wf());
    }
    if n > 0 {
        assert(table[0].wf());
        assert(0 * size == 0) by (nonlinear_arith);
        assert(content.take(0) == Seq::<u8>::empty());
        assert(table[n - 1].wf());
        lemma_slot_starts(len, size, n);
        assert(content.take(len as int) == content);
    }
}

/// The line count of a table is the sum of what its slots count.
pub proof fn lemma_total_line_count(md: GrabMetadata)
    requires
        md.wf(),
    ensures
        md.line_count == sum_line_counts(md.slots@),
{
    lemma_totals_are_sums(md.slots@);
}

/// A read of all the lines that a scan counted yields that many lines,
/// provided that the content has a line for each of them.  The scan counts
/// one line per newline and one more per slot; the content has one line per
/// line feed or carriage return and one more.  So the read yields every line
/// exactly where there are no more slots than carriage returns and one.
pub proof fn lemma_full_range_yields_every_line(content: Seq<u8>, size: nat, md: GrabMetadata)
    requires
        size > 0,
        0 < content.len() <= u64::MAX,
        md.wf(),
        md.slots@ == table_of(content, size),
        md.line_count == line_total(content, size),
        slot_count(content.len(), size) <= count_byte(content, CARRIAGE_RETURN) + 1,
    ensures
        md.lines_in(content, LineRange { start: 0, end: md.line_count as u64 }) matches Some(lines)
            && lines.len() == md.line_count && lines == split_lines(content).take(
            md.line_count as int,
        ),
{
    lemma_slot_count_positive(content.len(), size);
    lemma_scan_table_wf(content, size);
    lemma_whole_file_plan(md, content.len());
    assert(content.subrange(0, content.len() as int) == content);
    lemma_split_len(content);
}

/// Non-empty content needs a slot.
pub proof fn lemma_slot_count_positive(len: nat, size: nat)
    requires
        size > 0,
        len > 0,
    ensures
        slot_count(len, size) > 0,
{
    lemma_fundamental_div_mod(len - 1, size as int);
    vstd::arithmetic::div_mod::lemma_div_pos_is_pos(len - 1, size as int);
}

/// The plan for all the lines of a table: read all the bytes of the table,
/// skip nothing.
pub proof fn lemma_whole_file_plan(md: GrabMetadata, len: nat)
    requires
        md.wf(),
        md.slots@.len() > 0,
        bytes_end(md.slots@) == len,
    ensures
        md.read_plan(LineRange { start: 0, end: md.line_count as u64 }) matches Some(plan)
            && plan.bytes.start == 0 && plan.bytes.end == len && plan.to_skip == 0 && plan.to_take
            == md.line_count,
{
    let n = md.slots@.len() as int;
    let last_line = (md.line_count - 1) as u64;
    assert(md.slots@[0].wf());
    assert(md.slots@[n - 1].wf());
    assert(md.holds_line(0, 0));
    assert(md.holds_line(n - 1, last_line));
    let a = choose|k: int| md.holds_line(k, 0);
    let b = choose|k: int| md.holds_line(k, last_line);
    md.lemma_slot_unique(a, 0, 0);
    md.lemma_slot_unique(b, n - 1, last_line);
}

/// Reading a range gives the lines that a scan of the whole file would give
/// at the same line numbers, provided that the slots agree with the file
/// where the read begins and ends: the slot of the first line begins at a
/// line's first byte and numbers that line as the file does, and the lines of
/// the range end inside the bytes read, or with the file.
pub proof fn lemma_aligned_read_round_trip(md: GrabMetadata, file: Seq<u8>, range: LineRange)
    requires
        md.wf(),
        range.wf(),
        range.end <= md.line_count,
        bytes_end(md.slots@) <= file.len(),
        md.read_plan(range) matches Some(plan) && {
            let window = file.subrange(plan.bytes.start as int, plan.bytes.end as int);
            &&& (plan.bytes.start == 0 || is_break(file[plan.bytes.start - 1]))
            &&& range.start - plan.to_skip == count_breaks(file.take(plan.bytes.start as int))
            &&& (plan.to_skip + plan.to_take <= count_breaks(window) || (plan.bytes.end
                == file.len() && plan.to_skip + plan.to_take <= count_breaks(window) + 1))
        },
    ensures
        range.end <= split_lines(file).len(),
        md.lines_in(file, range) == Some(
            split_lines(file).subrange(range.start as int, range.end as int),
        ),
{
    let plan = md.read_plan(range)->0;
    let last_line = (range.end - 1) as u64;
    let b = choose|k: int| md.holds_line(k, last_line);
    lemma_table_ascending(md.slots@, b, md.slots@.len() - 1);
    md.lemma_plan_spans(range);
    let from = plan.bytes.start as int;
    let to = plan.bytes.end as int;
    let window = file.subrange(from, to);
    let skip = plan.to_skip as int;
    let take = plan.to_take as int;
    lemma_split_len(window);
    lemma_split_len(file);
    lemma_window_lines(file, from, to, skip + take - 1);
    let got = clip(split_lines(window), plan.to_skip as nat, plan.to_take as nat);
    let want = split_lines(file).subrange(range.start as int, range.end as int);
    assert(got.len() == take);
    assert forall|i: int| 0 <= i < take implies got[i] == want[i] by {
        lemma_window_lines(file, from, to, skip + i);
    }
    assert(got =~= want);
}

/// Where the whole file fits in one slot, reading a range of lines gives
/// the lines that a scan of the whole file gives at the same line numbers.
pub proof fn lemma_single_slot_round_trip(
    content: Seq<u8>,
    size: nat,
    md: GrabMetadata,
    range: LineRange,
)
    requires
        0 < content.len() <= size,
        content.len() <= u64::MAX,
        md.wf(),
        md.slots@ == table_of(content, size),
        md.line_count == line_total(content, size),
        range.wf(),
        range.end <= md.line_count,
    ensures
        range.end <= split_lines(content).len(),
        md.lines_in(content, range) == Some(
            split_lines(content).subrange(range.start as int, range.end as int),
        ),
{
    let len = content.len();
    lemma_slot_count_is(len, size, 1);
    let slot: Slot = md.slots@[0];
    assert(slot == slot_at(content, size, 0));
    assert(slot.wf());
    assert(0 * size == 0) by (nonlinear_arith);
    assert(1 * size == size) by (nonlinear_arith);
    assert(slot_start(len, size, 0) == 0);
    assert(slot_start(len, size, 1) == len);
    assert(content.take(0) == Seq::<u8>::empty());
    assert(content.take(len as int) == content);
    assert(slot.bytes.start == 0);
    assert(slot.bytes.end == len);
    assert(slot.lines.start == 0);
    let last_line = (range.end - 1) as u64;
    assert(md.holds_line(0, range.start));
    assert(md.holds_line(0, last_line));
    let a = choose|k: int| md.holds_line(k, range.start);
    let b = choose|k: int| md.holds_line(k, last_line);
    md.lemma_slot_unique(a, 0, range.start);
    md.lemma_slot_unique(b, 0, last_line);
    assert(content.subrange(0, len as int) == content);
    lemma_count_bounded(content, NEWLINE);
    lemma_aligned_read_round_trip(md, content, range);
}

/// No run could go on into the next: where one run ends with `n`, the next
/// does not begin with `n + 1`.
pub proof fn lemma_coalesce_maximal(positions: Seq<u64>, k: int)
    requires
        0 <= k,
        k + 1 < coalesce(positions).len(),
    ensures
        coalesce(positions)[k].last + 1 != coalesce(positions)[k + 1].first,
    decreases positions.len(),
{
    if positions.len() > 0 {
        let init = positions.drop_last();
        let head = coalesce(init);
        let runs = coalesce(positions);
        let p = positions.last();
        if head.len() > 0 && head.last().last + 1 == p {
            assert(runs[k] == head[k]);
            if k + 1 < head.len() - 1 {
                assert(runs[k + 1] == head[k + 1]);
            }
            lemma_coalesce_maximal(init, k);
        } else {
            if k + 1 < head.len() {
                assert(runs[k] == head[k] && runs[k + 1] == head[k + 1]);
                lemma_coalesce_maximal(init, k);
            } else {
                assert(runs[k] == head.last());
            }
        }
    }
}

/// The line number that a results file holds for a match is read back from
/// it as the number of the matching line and one.
pub proof fn lemma_written_position_is_read_back(n: u64)
    requires
        n < u64::MAX,
    ensures
        position_of(decimal_text((n + 1) as nat)) == Some((n + 1) as u64),
{
    lemma_decimal_round_trip((n + 1) as u64);
}

/// The bytes of a text of ASCII characters.
pub open spec fn ascii_bytes(text: Seq<char>) -> Seq<u8> {
    Seq::new(text.len(), |i: int| text[i] as u8)
}

/// Bytes that never hold a byte hold it no times.
pub proof fn lemma_count_none(bytes: Seq<u8>, needle: u8)
    requires
        forall|i: int| 0 <= i < bytes.len() ==> #[trigger] bytes[i] != needle,
    ensures
        count_byte(bytes, needle) == 0,
    decreases bytes.len(),
{
    if bytes.len() > 0 {
        let init = bytes.drop_last();
        assert forall|i: int| 0 <= i < init.len() implies #[trigger] init[i] != needle by {
            assert(init[i] == bytes[i]);
        }
        lemma_count_none(init, needle);
        assert(bytes[bytes.len() - 1] != needle);
    }
}

/// The text of a results file is ASCII, is not empty where there is a
/// match, and holds one line feed less than there are matches.
pub proof fn lemma_results_text_breaks(matches: Seq<u64>)
    requires
        matches.len() > 0,
    ensures
        results_text(matches).len() > 0,
        is_ascii_chars(results_text(matches)),
        count_byte(ascii_bytes(results_text(matches)), NEWLINE) == matches.len() - 1,
    decreases matches.len(),
{
    let number = decimal_text((matches.last() + 1) as nat);
    lemma_decimal_text_digits((matches.last() + 1) as nat);
    assert forall|i: int| 0 <= i < ascii_bytes(number).len() implies #[trigger] ascii_bytes(
        number,
    )[i] != NEWLINE by {
        assert(is_digit(number[i] as u8));
    }
    lemma_count_none(ascii_bytes(number), NEWLINE);
    if matches.len() == 1 {
        assert(matches.last() == matches[0]);
    } else {
        let head = results_text(matches.drop_last());
        lemma_results_text_breaks(matches.drop_last());
        let feed = seq!['\n'];
        let text = head + feed + number;
        assert(results_text(matches) == text);
        assert(ascii_bytes(text) =~= ascii_bytes(head) + ascii_bytes(feed) + ascii_bytes(number));
        assert(ascii_bytes(feed) =~= seq![NEWLINE]);
        assert(count_byte(seq![NEWLINE], NEWLINE) == 1) by {
            let one = seq![NEWLINE];
            assert(one.len() == 1);
            assert(one.last() == NEWLINE);
            assert(one.drop_last() =~= Seq::<u8>::empty());
            assert(count_byte(one.drop_last(), NEWLINE) == 0);
            reveal_with_fuel(count_byte, 2);
        }
        lemma_count_concat(ascii_bytes(head), ascii_bytes(feed), NEWLINE);
        lemma_count_concat(ascii_bytes(head) + ascii_bytes(feed), ascii_bytes(number), NEWLINE);
        assert forall|i: int| 0 <= i < text.len() implies '\0' <= #[trigger] text[i]
            <= '\u{7f}' by {
            if i < head.len() {
                assert(text[i] == head[i]);
            } else if i == head.len() {
                assert(text[i] == '\n');
            } else {
                assert(text[i] == number[i - head.len() - 1]);
            }
        }
    }
}

/// A results file that fits in one slot counts as many lines as there are
/// matches: the scan of what `render_matches` writes for one match or more
/// gives the number of matches as its line count.
pub proof fn lemma_results_file_counts_matches(matches: Seq<u64>, size: nat)
    requires
        matches.len() > 0,
        encode_utf8(results_text(matches)).len() <= size,
    ensures
        line_total(encode_utf8(results_text(matches)), size) == matches.len(),
{
    let text = results_text(matches);
    lemma_results_text_breaks(matches);
    is_ascii_chars_encode_utf8(text);
    assert(encode_utf8(text) =~= ascii_bytes(text));
    lemma_slot_count_is(text.len(), size, 1);
}

} // verus!
