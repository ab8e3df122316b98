//! Search filters, and the list of matching lines that a search leaves behind.

use crate::grabber::{ElementView, GrabbedContent};
use crate::events::{fails_with, ComputationError, ErrorView};
use crate::slots::LineRange;
use crate::lines::{is_line_break, split_lines};
use crate::text::{decimal_string_wide, decimal_text, join, parse_decimal, parse_decimal_text};
use vstd::prelude::*;
use vstd::string::StringExecFns;
use vstd::utf8::encode_utf8;

verus! {

/// What to look for in a line, and how.
#[derive(Debug, Clone, PartialEq)]
pub struct SearchFilter {
    pub value: String,
    pub is_regex: bool,
    pub ignore_case: bool,
    pub is_word: bool,
}

/// A search filter as it comes from the host.
#[derive(Debug, Clone, PartialEq)]
pub struct WrappedSearchFilter(pub SearchFilter);

/// The result is the failure with the message `text`.
pub open spec fn refused_with<T>(r: Result<T, String>, text: Seq<char>) -> bool {
    r matches Err(m) && m@ == text
}

impl WrappedSearchFilter {
    /// The filter inside.
    pub fn as_filter(&self) -> (filter: SearchFilter)
        ensures
            filter == self.0,
    {
        SearchFilter {
            value: self.0.value.clone(),
            is_regex: self.0.is_regex,
            ignore_case: self.0.ignore_case,
            is_word: self.0.is_word,
        }
    }

    /// Builds a filter from the four properties of the host's object.  Each
    /// of them must be there; the first one that is missing, in the order
    /// `value`, `is_regex`, `is_word`, `ignore_case`, is named in the failure.
    pub fn from_properties(
        value: Option<String>,
        is_regex: Option<bool>,
        is_word: Option<bool>,
        ignore_case: Option<bool>,
    ) -> (r: Result<WrappedSearchFilter, String>)
        ensures
            value is None ==> refused_with(r, "[value] property is not found"@),
            value is Some && is_regex is None ==> refused_with(
                r,
                "[is_regex] property is not found"@,
            ),
            value is Some && is_regex is Some && is_word is None ==> refused_with(
                r,
                "[is_word] property is not found"@,
            ),
            value is Some && is_regex is Some && is_word is Some && ignore_case is None
                ==> refused_with(r, "[ignore_case] property is not found"@),
            value is Some && is_regex is Some && is_word is Some && ignore_case is Some ==> r
                == Ok::<WrappedSearchFilter, String>(
                WrappedSearchFilter(
                    SearchFilter {
                        value: value->0,
                        is_regex: is_regex->0,
                        ignore_case: ignore_case->0,
                        is_word: is_word->0,
                    },
                ),
            ),
    {
        let value: String = match value {
            Some(value) => value,
            None => {
                return Err("[value] property is not found".to_owned());
            },
        };
        let is_regex: bool = match is_regex {
            Some(flag) => flag,
            None => {
                return Err("[is_regex] property is not found".to_owned());
            },
        };
        let is_word: bool = match is_word {
            Some(flag) => flag,
            None => {
                return Err("[is_word] property is not found".to_owned());
            },
        };
        let ignore_case: bool = match ignore_case {
            Some(flag) => flag,
            None => {
                return Err("[ignore_case] property is not found".to_owned());
            },
        };
        Ok(WrappedSearchFilter(SearchFilter { value, is_regex, ignore_case, is_word }))
    }
}

/// Takes the filters out of their wrappers, in order.
pub fn unwrap_filters(filters: &Vec<WrappedSearchFilter>) -> (plain: Vec<SearchFilter>)
    ensures
        plain@.len() == filters@.len(),
        forall|i: int| 0 <= i < filters@.len() ==> plain@[i] == (#[trigger] filters@[i]).0,
{
    let mut plain: Vec<SearchFilter> = Vec::new();
    let mut i: usize = 0;
    while i < filters.len()
        invariant
            0 <= i <= filters@.len(),
            plain@.len() == i,
            forall|k: int| 0 <= k < i ==> plain@[k] == (#[trigger] filters@[k]).0,
        decreases filters@.len() - i,
    {
        plain.push(filters[i].as_filter());
        i = i + 1;
    }
    plain
}

/// Whether the matcher may give `verdict` for the line `line`.
pub open spec fn may_say<F: Fn(&[u8]) -> bool>(is_match: F, line: Seq<u8>, verdict: bool) -> bool {
    exists|s: &[u8]| s@ == line && #[trigger] call_ensures(is_match, (s,), verdict)
}

/// Scans `content` line by line and records the number of every line, counted
/// from 0, that the matcher accepts.  The lines are the pieces between line
/// breaks; the numbers come out in ascending order.
pub fn find_matches<F: Fn(&[u8]) -> bool>(content: &[u8], is_match: F) -> (matches: Vec<u64>)
    requires
        forall|s: &[u8]| #[trigger] call_requires(is_match, (s,)),
    ensures
        forall|j: int, k: int| 0 <= j < k < matches@.len() ==> matches@[j] < matches@[k],
        forall|k: int|
            0 <= k < matches@.len() ==> (#[trigger] matches@[k]) < split_lines(content@).len()
                && may_say(is_match, split_lines(content@)[matches@[k] as int], true),
        forall|i: int|
            0 <= i < split_lines(content@).len() && !matches@.contains(i as u64) ==> may_say(
                is_match,
                #[trigger] split_lines(content@)[i],
                false,
            ),
{
    let len: usize = content.len();
    let mut matches: Vec<u64> = Vec::new();
    let mut index: u64 = 0;
    let mut line_start: usize = 0;
    let mut pos: usize = 0;
    let ghost mut closed: Seq<Seq<u8>> = Seq::empty();
    proof {
        assert(content@.take(0) == Seq::<u8>::empty());
        assert(split_lines(content@.take(0)) =~= closed.push(content@.subrange(0, 0)));
    }
    while pos < len
        invariant
            len == content@.len(),
            0 <= line_start <= pos <= len,
            index <= pos,
            closed.len() == index,
            split_lines(content@.take(pos as int)) == closed.push(
                content@.subrange(line_start as int, pos as int),
            ),
            forall|s: &[u8]| #[trigger] call_requires(is_match, (s,)),
            forall|j: int, k: int| 0 <= j < k < matches@.len() ==> matches@[j] < matches@[k],
            forall|k: int|
                0 <= k < matches@.len() ==> (#[trigger] matches@[k]) < index && may_say(
                    is_match,
                    closed[matches@[k] as int],
                    true,
                ),
            forall|i: int|
                0 <= i < index && !matches@.contains(i as u64) ==> may_say(
                    is_match,
                    #[trigger] closed[i],
                    false,
                ),
        decreases len - pos,
    {
        let b: u8 = content[pos];
        proof {
            assert(content@.take(pos + 1).drop_last() == content@.take(pos as int));
            assert(content@.take(pos + 1).last() == b);
        }
        if is_line_break(b) {
            let line: &[u8] = &content[line_start..pos];
            let ghost piece = content@.subrange(line_start as int, pos as int);
            let ghost before = matches@;
            let accepted: bool = is_match(line);
            assert(may_say(is_match, piece, accepted));
            if accepted {
                matches.push(index);
            }
            proof {
                let after = closed.push(piece);
                assert forall|i: int|
                    0 <= i < index + 1 && !matches@.contains(i as u64) implies may_say(
                    is_match,
                    #[trigger] after[i],
                    false,
                ) by {
                    if i < index {
                        if before.contains(i as u64) {
                            let w = choose|w: int| 0 <= w < before.len() && before[w] == i as u64;
                            assert(matches@[w] == i as u64);
                        }
                    } else {
                        if accepted {
                            assert(matches@[matches@.len() - 1] == index);
                        }
                    }
                }
                closed = after;
                assert(content@.subrange(pos + 1, pos + 1) == Seq::<u8>::empty());
            }
            index = index + 1;
            line_start = pos + 1;
        } else {
            proof {
                let head = split_lines(content@.take(pos as int));
                assert(head.drop_last() == closed);
                assert(head.last().push(b) == content@.subrange(line_start as int, pos + 1));
            }
        }
        pos = pos + 1;
    }
    let line: &[u8] = &content[line_start..len];
    let ghost piece = content@.subrange(line_start as int, len as int);
    let ghost before = matches@;
    let accepted: bool = is_match(line);
    assert(may_say(is_match, piece, accepted));
    if accepted {
        matches.push(index);
    }
    proof {
        let all = closed.push(piece);
        assert(content@.take(len as int) == content@);
        assert(split_lines(content@) == all);
        assert forall|i: int|
            0 <= i < all.len() && !matches@.contains(i as u64) implies may_say(
            is_match,
            #[trigger] all[i],
            false,
        ) by {
            if i < index {
                if before.contains(i as u64) {
                    let w = choose|w: int| 0 <= w < before.len() && before[w] == i as u64;
                    assert(matches@[w] == i as u64);
                }
            } else {
                if accepted {
                    assert(matches@[matches@.len() - 1] == index);
                }
            }
        }
        assert forall|k: int| 0 <= k < matches@.len() implies (#[trigger] matches@[k]) < all.len()
            && may_say(is_match, all[matches@[k] as int], true) by {
            if k < before.len() {
                assert(matches@[k] == before[k]);
            }
        }
    }
    matches
}

/// The text of a results file: for each match its line number in decimal,
/// counted from 1, with a line feed between one number and the next and none
/// behind the last.  So the file has as many lines as there are matches.
pub open spec fn results_text(matches: Seq<u64>) -> Seq<char>
    decreases matches.len(),
{
    if matches.len() == 0 {
        Seq::empty()
    } else if matches.len() == 1 {
        decimal_text((matches[0] + 1) as nat)
    } else {
        results_text(matches.drop_last()) + seq!['\n'] + decimal_text(
            (matches.last() + 1) as nat,
        )
    }
}

/// Writes the list of matching lines, whose numbers count from 0, as the
/// text of a results file.
pub fn render_matches(matches: &Vec<u64>) -> (text: String)
    ensures
        text@ == results_text(matches@),
{
    let mut text: String = String::new();
    let mut i: usize = 0;
    assert(matches@.take(0) == Seq::<u64>::empty());
    proof {
        reveal_strlit("\n");
    }
    while i < matches.len()
        invariant
            0 <= i <= matches@.len(),
            text@ == results_text(matches@.take(i as int)),
            "\n"@ == seq!['\n'],
        decreases matches@.len() - i,
    {
        let number: String = decimal_string_wide(matches[i] as u128 + 1);
        proof {
            assert(matches@.take(i + 1).drop_last() == matches@.take(i as int));
            assert(matches@.take(i + 1).last() == matches@[i as int]);
            assert(matches@.take(i + 1)[0] == matches@[0]);
        }
        if i > 0 {
            text.append("\n");
        } else {
            assert(text@ + number@ == number@);
        }
        text.append(number.as_str());
        i = i + 1;
    }
    assert(matches@.take(matches@.len() as int) == matches@);
    text
}

/// The line number that a line of a results file holds: a decimal number
/// that is at least 1.
pub open spec fn position_of(line: Seq<char>) -> Option<u64> {
    match parse_decimal(encode_utf8(line)) {
        Some(n) => if n >= 1 {
            Some(n)
        } else {
            None
        },
        None => None,
    }
}

/// Every element of the first `n` holds a line number.
pub open spec fn all_positions(elements: Seq<ElementView>, n: int) -> bool {
    forall|i: int| 0 <= i < n ==> position_of((#[trigger] elements[i]).content) is Some
}

/// The line numbers that the elements hold, in order.
pub open spec fn positions_of(elements: Seq<ElementView>) -> Seq<u64> {
    Seq::new(elements.len(), |i: int| position_of(elements[i].content)->0)
}

/// The failure for an element that holds no line number.
pub open spec fn bad_position(line: Seq<char>) -> ErrorView {
    ErrorView::Process("invalid line number: "@ + line)
}

/// Reads the line numbers out of a page of search results.  The first
/// element that does not hold one makes the call fail.
pub fn search_positions(content: &GrabbedContent) -> (r: Result<Vec<u64>, ComputationError>)
    ensures
        all_positions(content@, content@.len() as int) ==> (r matches Ok(positions) && positions@
            == positions_of(content@)),
        !all_positions(content@, content@.len() as int) ==> exists|k: int|
            0 <= k < content@.len() && all_positions(content@, k) && position_of(
                (#[trigger] content@[k]).content,
            ) is None && fails_with(r, bad_position(content@[k].content)),
{
    let mut positions: Vec<u64> = Vec::new();
    let mut i: usize = 0;
    while i < content.grabbed_elements.len()
        invariant
            0 <= i <= content@.len(),
            content@.len() == content.grabbed_elements@.len(),
            all_positions(content@, i as int),
            positions@.len() == i,
            forall|k: int| 0 <= k < i ==> positions@[k] == position_of(content@[k].content)->0,
        decreases content@.len() - i,
    {
        let text: &str = content.grabbed_elements[i].content.as_str();
        assert(content@[i as int].content == text@);
        let parsed: Option<u64> = parse_decimal_text(text);
        match parsed {
            Some(n) => {
                if n >= 1 {
                    positions.push(n);
                } else {
                    return Err(ComputationError::Process(join("invalid line number: ", text)));
                }
            },
            None => {
                return Err(ComputationError::Process(join("invalid line number: ", text)));
            },
        }
        i = i + 1;
    }
    assert(positions@ =~= positions_of(content@));
    Ok(positions)
}

/// A run of line numbers that follow one another: `first`, `first + 1`, ...,
/// `last`.
#[derive(Debug, Clone, Copy, PartialEq, Eq, Structural)]
pub struct PositionRun {
    pub first: u64,
    pub last: u64,
}

impl PositionRun {
    /// How many line numbers the run holds.
    pub open spec fn spec_len(&self) -> int {
        self.last - self.first + 1
    }

    /// The line numbers of the run, in order.
    pub open spec fn positions(&self) -> Seq<u64> {
        Seq::new(self.spec_len() as nat, |i: int| (self.first + i) as u64)
    }

    /// The lines of the file that the run asks for.  The numbers of a results
    /// file count from 1 and the lines of a file from 0.
    pub open spec fn line_range(&self) -> LineRange {
        LineRange { start: (self.first - 1) as u64, end: self.last }
    }

    /// The lines of the file that the run asks for.
    pub fn to_line_range(&self) -> (range: LineRange)
        requires
            1 <= self.first <= self.last,
        ensures
            range == self.line_range(),
            range.wf(),
            range.spec_len() == self.spec_len(),
    {
        LineRange::new(self.first - 1, self.last)
    }
}

/// The runs of `positions`: each number that is one more than the number
/// before it goes on the run of that number, and every other number begins a
/// run.
pub open spec fn coalesce(positions: Seq<u64>) -> Seq<PositionRun>
    decreases positions.len(),
{
    if positions.len() == 0 {
        Seq::empty()
    } else {
        let head = coalesce(positions.drop_last());
        let p = positions.last();
        if head.len() > 0 && head.last().last + 1 == p {
            head.drop_last().push(PositionRun { first: head.last().first, last: p })
        } else {
            head.push(PositionRun { first: p, last: p })
        }
    }
}

/// The line numbers that a list of runs stands for.
pub open spec fn expand(runs: Seq<PositionRun>) -> Seq<u64>
    decreases runs.len(),
{
    if runs.len() == 0 {
        Seq::empty()
    } else {
        expand(runs.drop_last()) + runs.last().positions()
    }
}

/// How many line numbers a list of runs stands for.
pub open spec fn total_len(runs: Seq<PositionRun>) -> int
    decreases runs.len(),
{
    if runs.len() == 0 {
        0
    } else {
        total_len(runs.drop_last()) + runs.last().spec_len()
    }
}

/// The runs of a list of line numbers are in order, none is empty, and the
/// last one ends with the last number.
pub proof fn lemma_coalesce_runs(positions: Seq<u64>)
    ensures
        forall|k: int|
            0 <= k < coalesce(positions).len() ==> (#[trigger] coalesce(positions)[k]).first
                <= coalesce(positions)[k].last,
        positions.len() > 0 ==> coalesce(positions).len() > 0 && coalesce(positions).last().last
            == positions.last(),
        positions.len() == 0 ==> coalesce(positions).len() == 0,
        positions.len() > 0 ==> coalesce(positions)[0].first == positions[0],
    decreases positions.len(),
{
    if positions.len() > 0 {
        let init = positions.drop_last();
        lemma_coalesce_runs(init);
        let head = coalesce(init);
        let runs = coalesce(positions);
        assert forall|k: int| 0 <= k < runs.len() implies (#[trigger] runs[k]).first
            <= runs[k].last by {
            if k < runs.len() - 1 {
                assert(runs[k] == head[k]);
            }
        }
        if init.len() > 0 {
            assert(init[0] == positions[0]);
            assert(runs[0].first == head[0].first);
        }
    }
}

/// Coalescing loses nothing and adds nothing: the runs, written out, are the
/// line numbers again, and they stand for as many numbers as there were.
pub proof fn lemma_coalesce_expand(positions: Seq<u64>)
    ensures
        expand(coalesce(positions)) == positions,
        total_len(coalesce(positions)) == positions.len(),
    decreases positions.len(),
{
    if positions.len() > 0 {
        let init = positions.drop_last();
        let p = positions.last();
        let head = coalesce(init);
        let runs = coalesce(positions);
        lemma_coalesce_expand(init);
        lemma_coalesce_runs(init);
        if head.len() > 0 && head.last().last + 1 == p {
            let grown = PositionRun { first: head.last().first, last: p };
            assert(runs.drop_last() == head.drop_last());
            assert(head.last().first <= head.last().last);
            assert(grown.positions() =~= head.last().positions().push(p));
            assert(expand(runs) =~= expand(head).push(p));
        } else {
            let single = PositionRun { first: p, last: p };
            assert(runs.drop_last() == head);
            assert(single.positions() =~= seq![p]);
            assert(expand(runs) =~= expand(head).push(p));
        }
        assert(init.push(p) == positions);
    }
}

/// A run begins no lower than the lowest line number.
pub proof fn lemma_coalesce_floor(positions: Seq<u64>, floor: u64)
    requires
        forall|i: int| 0 <= i < positions.len() ==> #[trigger] positions[i] >= floor,
    ensures
        forall|k: int|
            0 <= k < coalesce(positions).len() ==> floor <= (#[trigger] coalesce(
                positions,
            )[k]).first <= coalesce(positions)[k].last,
    decreases positions.len(),
{
    lemma_coalesce_runs(positions);
    if positions.len() > 0 {
        let init = positions.drop_last();
        assert forall|i: int| 0 <= i < init.len() implies #[trigger] init[i] >= floor by {
            assert(init[i] == positions[i]);
        }
        lemma_coalesce_floor(init, floor);
        let head = coalesce(init);
        let runs = coalesce(positions);
        assert(positions[positions.len() - 1] >= floor);
        assert forall|k: int| 0 <= k < runs.len() implies floor <= (#[trigger] runs[k]).first by {
            if k < runs.len() - 1 {
                assert(runs[k] == head[k]);
            }
        }
    }
}

/// A shorter list of runs holds no more line numbers than a longer one.
pub proof fn lemma_total_len_prefix(runs: Seq<PositionRun>, n: int)
    requires
        0 <= n <= runs.len(),
        forall|k: int| 0 <= k < runs.len() ==> (#[trigger] runs[k]).first <= runs[k].last,
    ensures
        0 <= total_len(runs.take(n)) <= total_len(runs),
        n < runs.len() ==> total_len(runs.take(n + 1)) == total_len(runs.take(n)) + runs[n].spec_len(),
    decreases runs.len() - n,
{
    if n < runs.len() {
        assert(runs.take(n + 1).drop_last() == runs.take(n));
        assert(runs.take(n + 1).last() == runs[n]);
        lemma_total_len_prefix(runs, n + 1);
        lemma_total_len_nonnegative(runs.take(n));
    } else {
        assert(runs.take(n) == runs);
        lemma_total_len_nonnegative(runs);
    }
}

/// Runs hold no negative number of line numbers.
pub proof fn lemma_total_len_nonnegative(runs: Seq<PositionRun>)
    requires
        forall|k: int| 0 <= k < runs.len() ==> (#[trigger] runs[k]).first <= runs[k].last,
    ensures
        0 <= total_len(runs),
    decreases runs.len(),
{
    if runs.len() > 0 {
        let init = runs.drop_last();
        assert forall|k: int| 0 <= k < init.len() implies (#[trigger] init[k]).first
            <= init[k].last by {
            assert(init[k] == runs[k]);
        }
        lemma_total_len_nonnegative(init);
        assert(runs[runs.len() - 1].first <= runs[runs.len() - 1].last);
    }
}

/// Gathers line numbers into runs.
pub fn coalesce_positions(positions: &Vec<u64>) -> (runs: Vec<PositionRun>)
    ensures
        runs@ == coalesce(positions@),
{
    let mut runs: Vec<PositionRun> = Vec::new();
    let mut i: usize = 0;
    assert(positions@.take(0) == Seq::<u64>::empty());
    while i < positions.len()
        invariant
            0 <= i <= positions@.len(),
            runs@ == coalesce(positions@.take(i as int)),
        decreases positions@.len() - i,
    {
        let p: u64 = positions[i];
        proof {
            assert(positions@.take(i + 1).drop_last() == positions@.take(i as int));
            assert(positions@.take(i + 1).last() == p);
        }
        let n: usize = runs.len();
        if n > 0 && runs[n - 1].last < u64::MAX && runs[n - 1].last + 1 == p {
            let first: u64 = runs[n - 1].first;
            let ghost head = runs@;
            runs.pop();
            runs.push(PositionRun { first, last: p });
            assert(runs@ =~= head.drop_last().push(PositionRun { first: head.last().first, last: p }));
        } else {
            runs.push(PositionRun { first: p, last: p });
        }
        i = i + 1;
    }
    assert(positions@.take(positions@.len() as int) == positions@);
    runs
}

} // verus!
