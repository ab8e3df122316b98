//! Cutting a run of bytes into lines.

use crate::scan::{count_byte, lemma_count_concat};
use vstd::prelude::*;
use vstd::slice::slice_to_vec;

verus! {

pub const LINE_FEED: u8 = 0x0A;

pub const CARRIAGE_RETURN: u8 = 0x0D;

/// A line ends at a line feed and at a carriage return alike.
pub open spec fn is_break(b: u8) -> bool {
    b == LINE_FEED || b == CARRIAGE_RETURN
}

pub fn is_line_break(b: u8) -> (r: bool)
    ensures
        r == is_break(b),
{
    b == LINE_FEED || b == CARRIAGE_RETURN
}

/// Number of line breaks in `bytes`.
pub open spec fn count_breaks(bytes: Seq<u8>) -> nat {
    count_byte(bytes, LINE_FEED) + count_byte(bytes, CARRIAGE_RETURN)
}

/// The pieces of `bytes` between its line breaks, in order.  A break ends
/// the piece before it and opens a new one, so `n` breaks give `n + 1`
/// pieces, the last of which is what follows the last break.
pub open spec fn split_lines(bytes: Seq<u8>) -> Seq<Seq<u8>>
    decreases bytes.len(),
{
    if bytes.len() == 0 {
        seq![Seq::<u8>::empty()]
    } else {
        let head = split_lines(bytes.drop_last());
        if is_break(bytes.last()) {
            head.push(Seq::<u8>::empty())
        } else {
            head.drop_last().push(head.last().push(bytes.last()))
        }
    }
}

/// The items that remain of `items` after `skip` were passed over and at most
/// `take` kept.
pub open spec fn clip<T>(items: Seq<T>, skip: nat, take: nat) -> Seq<T> {
    let from = if skip <= items.len() {
        skip
    } else {
        items.len()
    };
    let to = if skip + take <= items.len() {
        skip + take
    } else {
        items.len()
    };
    items.subrange(from as int, to as int)
}

/// The contents of a list of byte vectors.
pub open spec fn line_views(lines: Seq<Vec<u8>>) -> Seq<Seq<u8>> {
    Seq::new(lines.len(), |i: int| lines[i]@)
}

/// There is one piece more than there are breaks.
pub proof fn lemma_split_len(bytes: Seq<u8>)
    ensures
        split_lines(bytes).len() == count_breaks(bytes) + 1,
    decreases bytes.len(),
{
    if bytes.len() > 0 {
        lemma_split_len(bytes.drop_last());
    }
}

/// The pieces of a concatenation: those of the first part but its last, then
/// the last of the first joined to the first of the second, then the rest of
/// the second.
pub proof fn lemma_split_concat(a: Seq<u8>, b: Seq<u8>)
    ensures
        split_lines(a + b) == split_lines(a).drop_last() + seq![
            split_lines(a).last() + split_lines(b)[0],
        ] + split_lines(b).skip(1),
    decreases b.len(),
{
    let sa = split_lines(a);
    let sb = split_lines(b);
    lemma_split_len(a);
    lemma_split_len(b);
    if b.len() == 0 {
        assert(a + b == a);
        assert(sa.last() + sb[0] == sa.last());
        assert(sa =~= sa.drop_last() + seq![sa.last() + sb[0]] + sb.skip(1));
    } else {
        let b1 = b.drop_last();
        let sb1 = split_lines(b1);
        let h = split_lines(a + b1);
        lemma_split_concat(a, b1);
        lemma_split_len(b1);
        lemma_split_len(a + b1);
        assert((a + b).drop_last() == a + b1);
        assert((a + b).last() == b.last());
        let joined = sa.drop_last() + seq![sa.last() + sb[0]] + sb.skip(1);
        if is_break(b.last()) {
            assert(split_lines(a + b) == h.push(Seq::<u8>::empty()));
            assert(sb == sb1.push(Seq::<u8>::empty()));
            assert(h.push(Seq::<u8>::empty()) =~= joined);
        } else {
            assert(split_lines(a + b) == h.drop_last().push(h.last().push(b.last())));
            assert(sb == sb1.drop_last().push(sb1.last().push(b.last())));
            if sb1.len() == 1 {
                assert(h.last() == sa.last() + sb1[0]);
                assert((sa.last() + sb1[0]).push(b.last()) == sa.last() + sb1[0].push(b.last()));
            } else {
                assert(h.last() == sb1.last());
            }
            assert(h.drop_last().push(h.last().push(b.last())) =~= joined);
        }
    }
}

/// What follows cannot change a piece that a break has already closed.
pub proof fn lemma_split_prefix_stable(a: Seq<u8>, b: Seq<u8>, j: int)
    requires
        0 <= j < count_breaks(a),
    ensures
        split_lines(a + b)[j] == split_lines(a)[j],
{
    lemma_split_concat(a, b);
    lemma_split_len(a);
    lemma_split_len(b);
}

/// Where the first part is empty or ends in a break, the pieces of the second
/// part appear unchanged, after as many pieces as the first part has breaks.
pub proof fn lemma_split_after_break(a: Seq<u8>, b: Seq<u8>, j: int)
    requires
        a.len() == 0 || is_break(a.last()),
        0 <= j <= count_breaks(b),
    ensures
        split_lines(a + b)[count_breaks(a) + j] == split_lines(b)[j],
{
    lemma_split_concat(a, b);
    lemma_split_len(a);
    lemma_split_len(b);
    assert(split_lines(a).last() == Seq::<u8>::empty());
    assert(split_lines(a).last() + split_lines(b)[0] == split_lines(b)[0]);
}

/// Breaks are counted additively over concatenation.
pub proof fn lemma_breaks_concat(a: Seq<u8>, b: Seq<u8>)
    ensures
        count_breaks(a + b) == count_breaks(a) + count_breaks(b),
{
    lemma_count_concat(a, b, LINE_FEED);
    lemma_count_concat(a, b, CARRIAGE_RETURN);
}

/// A window that begins where a line begins shows the lines of the whole:
/// piece `j` of the window is piece `j` counted from the window's first line,
/// for every piece that a break closes inside the window, and for the open
/// last piece too where the window reaches the end of the content.
pub proof fn lemma_window_lines(content: Seq<u8>, from: int, to: int, j: int)
    requires
        0 <= from <= to <= content.len(),
        from == 0 || is_break(content[from - 1]),
        0 <= j <= count_breaks(content.subrange(from, to)),
        j < count_breaks(content.subrange(from, to)) || to == content.len(),
    ensures
        count_breaks(content.take(from)) + j < split_lines(content).len(),
        split_lines(content.subrange(from, to))[j] == split_lines(content)[count_breaks(
            content.take(from),
        ) + j],
{
    let before = content.take(from);
    let window = content.subrange(from, to);
    let after = content.skip(to);
    let rest = content.skip(from);
    assert(rest == window + after);
    assert(content == before + rest);
    lemma_breaks_concat(window, after);
    lemma_breaks_concat(before, rest);
    lemma_split_len(content);
    lemma_split_after_break(before, rest, j);
    if j < count_breaks(window) {
        lemma_split_prefix_stable(window, after, j);
    } else {
        assert(after.len() == 0);
        assert(window + after == window);
    }
}

/// Cuts `window` at its line breaks and copies out the pieces numbered
/// `to_skip`, `to_skip + 1`, ... as far as there are such pieces, and at most
/// `to_take` of them.
pub fn extract_lines(window: &[u8], to_skip: u64, to_take: u64) -> (lines: Vec<Vec<u8>>)
    ensures
        line_views(lines@) == clip(split_lines(window@), to_skip as nat, to_take as nat),
{
    let len: usize = window.len();
    let mut lines: Vec<Vec<u8>> = Vec::new();
    let mut index: u64 = 0;
    let mut line_start: usize = 0;
    let mut pos: usize = 0;
    let ghost mut closed: Seq<Seq<u8>> = Seq::empty();
    proof {
        assert(window@.take(0) == Seq::<u8>::empty());
        assert(split_lines(window@.take(0)) =~= closed.push(window@.subrange(0, 0)));
        assert(line_views(lines@) =~= clip(closed, to_skip as nat, to_take as nat));
    }
    while pos < len
        invariant
            len == window@.len(),
            0 <= line_start <= pos <= len,
            index <= pos,
            closed.len() == index,
            split_lines(window@.take(pos as int)) == closed.push(
                window@.subrange(line_start as int, pos as int),
            ),
            line_views(lines@) == clip(closed, to_skip as nat, to_take as nat),
        decreases len - pos,
    {
        let b: u8 = window[pos];
        proof {
            assert(window@.take(pos + 1).drop_last() == window@.take(pos as int));
            assert(window@.take(pos + 1).last() == b);
        }
        if is_line_break(b) {
            let ghost piece = window@.subrange(line_start as int, pos as int);
            if index >= to_skip && index - to_skip < to_take {
                let copy: Vec<u8> = slice_to_vec(&window[line_start..pos]);
                let ghost before = lines@;
                lines.push(copy);
                assert(line_views(lines@) =~= line_views(before).push(piece));
            }
            proof {
                assert(clip(closed.push(piece), to_skip as nat, to_take as nat) =~= if to_skip
                    <= index && index - to_skip < to_take {
                    clip(closed, to_skip as nat, to_take as nat).push(piece)
                } else {
                    clip(closed, to_skip as nat, to_take as nat)
                });
                closed = closed.push(piece);
                assert(window@.subrange(pos + 1, pos + 1) == Seq::<u8>::empty());
            }
            index = index + 1;
            line_start = pos + 1;
        } else {
            proof {
                let head = split_lines(window@.take(pos as int));
                assert(head.drop_last() == closed);
                assert(head.last().push(b) == window@.subrange(line_start as int, pos + 1));
            }
        }
        pos = pos + 1;
    }
    let ghost piece = window@.subrange(line_start as int, len as int);
    if index >= to_skip && index - to_skip < to_take {
        let copy: Vec<u8> = slice_to_vec(&window[line_start..len]);
        let ghost before = lines@;
        lines.push(copy);
        assert(line_views(lines@) =~= line_views(before).push(piece));
    }
    proof {
        assert(window@.take(len as int) == window@);
        assert(clip(closed.push(piece), to_skip as nat, to_take as nat) =~= if to_skip <= index
            && index - to_skip < to_take {
            clip(closed, to_skip as nat, to_take as nat).push(piece)
        } else {
            clip(closed, to_skip as nat, to_take as nat)
        });
    }
    lines
}

} // verus!
