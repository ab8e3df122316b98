//! The session: one file, the jobs that run on it one after the other, and
//! the reads that are served while they run.

use crate::channels::{bounded_queue, poll, share_receiver, share_sender, Received};
use crate::events::{fails_with, text_of, ComputationError, ErrorView};
use crate::grabber::{
    callable, config_text, io_text, plain_elements, reads, refused, ElementView, GrabError,
    GrabbedContent, GrabbedElement, Grabber,
};
use crate::ids::OperationId;
use crate::search::{
    all_positions, bad_position, coalesce, coalesce_positions, lemma_coalesce_expand,
    lemma_coalesce_floor, lemma_total_len_prefix, position_of, positions_of, search_positions,
    total_len, unwrap_filters, PositionRun, SearchFilter, WrappedSearchFilter,
};
use crate::slots::{GrabMetadata, LineRange};
use crate::text::join;
use crate::worker::publish;
use crossbeam_channel::{Receiver, Sender};
use std::path::Path;
use vstd::prelude::*;

verus! {

/// The kinds of file that a session can work with.
#[derive(Debug, Clone, Copy, PartialEq, Eq, Structural)]
pub enum SupportedFileType {
    Text,
    Dlt,
}

/// What a caller last asked a session to work on.
#[derive(Debug, Clone, PartialEq)]
pub struct SessionState {
    pub assigned_file: Option<String>,
    pub filters: Vec<SearchFilter>,
}

/// The lower-case form of a text, as `str::to_lowercase` gives it.
pub uninterp spec fn lowercase_of(text: Seq<char>) -> Seq<char>;

/// Puts a text in lower case with `str::to_lowercase`.
#[verifier::external_body]
fn to_lowercase(text: &str) -> (lowered: String)
    ensures
        lowered@ == lowercase_of(text@),
{
    text.to_lowercase()
}

/// An ASCII letter or digit.
pub open spec fn is_plain_char(c: char) -> bool {
    ('0' <= c <= '9') || ('a' <= c <= 'z') || ('A' <= c <= 'Z')
}

/// A text of ASCII letters and digits.
pub open spec fn plain(text: Seq<char>) -> bool {
    forall|i: int| 0 <= i < text.len() ==> is_plain_char(#[trigger] text[i])
}

/// The path is a file name of the simplest kind: the stem `stem`, which is
/// not empty, a dot, and the extension `ext`, both of letters and digits.
pub open spec fn is_plain_name(path: Seq<char>, stem: Seq<char>, ext: Seq<char>) -> bool {
    &&& path == stem + seq!['.'] + ext
    &&& stem.len() > 0
    &&& plain(stem)
    &&& plain(ext)
}

/// Whatever plain file name the path is, `extension` is what stands behind
/// its dot.
pub open spec fn gives_plain_extension(path: Seq<char>, extension: Option<Seq<char>>) -> bool {
    forall|stem: Seq<char>, ext: Seq<char>| #[trigger]
        is_plain_name(path, stem, ext) ==> extension == Some(ext)
}

/// The extension of a path, taken with `Path::extension`: what stands
/// behind the last dot of the file name, where the file name has a dot that
/// is not its first character.  What counts as the file name of a path
/// differs between systems, so two things are claimed that hold on all of
/// them: a path without a dot has no extension, and a path that is nothing
/// but a stem of letters and digits, a dot, and letters and digits is its own
/// file name and has those as its extension.
#[verifier::external_body]
fn path_extension(path: &str) -> (extension: Option<String>)
    ensures
        !path@.contains('.') ==> extension is None,
        gives_plain_extension(path@, text_of(extension)),
{
    match Path::new(path).extension() {
        Some(extension) => Some(extension.to_string_lossy().into_owned()),
        None => None,
    }
}

/// The file type for an extension in lower case: `dlt` names the binary
/// log format, everything else is text.
pub open spec fn type_for(lowered: Seq<char>) -> SupportedFileType {
    if lowered == "dlt"@ {
        SupportedFileType::Dlt
    } else {
        SupportedFileType::Text
    }
}

/// The file type for an extension that is already in lower case.
pub fn file_type_of_lowered_extension(lowered: &str) -> (file_type: SupportedFileType)
    ensures
        file_type == type_for(lowered@),
{
    let given: String = lowered.to_owned();
    let dlt: String = "dlt".to_owned();
    if given == dlt {
        SupportedFileType::Dlt
    } else {
        SupportedFileType::Text
    }
}

/// The file type for the extension of a path, or for a path without one.
pub fn file_type_of_extension(extension: Option<&str>) -> (file_type: Option<SupportedFileType>)
    ensures
        file_type == Some(
            match extension {
                Some(e) => type_for(lowercase_of(e@)),
                None => SupportedFileType::Text,
            },
        ),
{
    match extension {
        Some(e) => {
            let lowered: String = to_lowercase(e);
            Some(file_type_of_lowered_extension(lowered.as_str()))
        },
        None => Some(SupportedFileType::Text),
    }
}

/// The file type of the file at `path`, decided by its extension.  Every
/// path has one: what is not known to be something else is text.  For a
/// plain file name the type is that of what stands behind its dot.
pub fn get_supported_file_type(path: &str) -> (file_type: Option<SupportedFileType>)
    ensures
        file_type is Some,
        !path@.contains('.') ==> file_type == Some(SupportedFileType::Text),
        forall|stem: Seq<char>, ext: Seq<char>| #[trigger]
            is_plain_name(path@, stem, ext) ==> file_type == Some(type_for(lowercase_of(ext))),
{
    match path_extension(path) {
        Some(extension) => file_type_of_extension(Some(extension.as_str())),
        None => file_type_of_extension(None),
    }
}

/// A job for the worker of a session.
#[derive(Debug, Clone, PartialEq)]
pub enum Operation {
    /// Scan the file that was assigned.
    Assign {
        file_path: String,
        source_id: String,
        operation_id: OperationId,
        source_type: SupportedFileType,
    },
    /// Search the assigned file.
    Search { target_file: String, filters: Vec<SearchFilter>, operation_id: OperationId },
    /// Leave.
    End,
}

/// What the worker hands over when a scan of the assigned file has ended:
/// the table, nothing where the scan was stopped, or why it failed.
pub type MetadataMessage = Result<Option<GrabMetadata>, ComputationError>;

/// What the worker hands over when a search has ended: where the results
/// lie, and their slot table.
#[derive(Debug, Clone, PartialEq)]
pub struct SearchHandoff {
    pub file_path: String,
    pub metadata: GrabMetadata,
}

/// The id under which the lines of a results file are handed out.
pub open spec fn search_source_id() -> Seq<char> {
    "search_results"@
}

/// A session.
pub struct RustSession {
    id: String,
    running: bool,
    content_grabber: Option<Grabber>,
    search_grabber: Option<Grabber>,
    content_metadata_tx: Sender<MetadataMessage>,
    content_metadata_rx: Receiver<MetadataMessage>,
    search_metadata_tx: Sender<SearchHandoff>,
    search_metadata_rx: Receiver<SearchHandoff>,
}

/// What a session holds, as plain values.
pub struct SessionView {
    pub id: Seq<char>,
    pub running: bool,
    pub content_grabber: Option<Grabber>,
    pub search_grabber: Option<Grabber>,
}

impl View for RustSession {
    type V = SessionView;

    closed spec fn view(&self) -> SessionView {
        SessionView {
            id: self.id@,
            running: self.running,
            content_grabber: self.content_grabber,
            search_grabber: self.search_grabber,
        }
    }
}

/// The grabber, where there is one, is well formed.
pub open spec fn grabber_wf(grabber: Option<Grabber>) -> bool {
    grabber matches Some(g) ==> g.wf()
}

/// The slot table of the grabber, where there is a grabber and it has one.
pub open spec fn table_of_grabber(grabber: Option<Grabber>) -> Option<GrabMetadata> {
    match grabber {
        Some(g) => g.table(),
        None => None,
    }
}

/// `after` is `before` but for the slot table, which is `table`.
pub open spec fn same_but_table(
    before: Option<Grabber>,
    after: Option<Grabber>,
    table: Option<GrabMetadata>,
) -> bool {
    match (before, after) {
        (Some(b), Some(a)) => a.same_file(&b) && a.table() == table,
        (None, None) => true,
        _ => false,
    }
}

/// What the arrival of `fresh` does to the grabber of the assigned file, and
/// what the caller is told.
///
/// Without a grabber the call fails.  A new table is put in place, if it is
/// well formed.  A scan that failed makes the call fail.  A scan that was
/// stopped left no table: the call fails as it does where nothing arrived and
/// the grabber has no table, as a call that the session is in no state for.
pub open spec fn content_applied(
    before: Option<Grabber>,
    fresh: Received<MetadataMessage>,
    after: Option<Grabber>,
    outcome: Result<(), ComputationError>,
) -> bool {
    match before {
        None => after is None && fails_with(
            outcome,
            ErrorView::Protocol("Need a grabber first to work with metadata"@),
        ),
        Some(grabber) => match fresh {
            Received::Item(Ok(Some(md))) => if md.wf() {
                outcome is Ok && same_but_table(before, after, Some(md))
            } else {
                same_but_table(before, after, grabber.table()) && fails_with(
                    outcome,
                    ErrorView::Process(config_text("Malformed metadata"@)),
                )
            },
            Received::Item(Ok(None)) => same_but_table(before, after, grabber.table())
                && fails_with(outcome, ErrorView::Protocol("No metadata available"@)),
            Received::Item(Err(e)) => same_but_table(before, after, grabber.table())
                && fails_with(
                outcome,
                ErrorView::Protocol("Problems during metadata generation: "@ + e@.text()),
            ),
            Received::Empty => same_but_table(before, after, grabber.table()) && if grabber.table() is Some {
                outcome is Ok
            } else {
                fails_with(outcome, ErrorView::Protocol("No metadata available for grabber"@))
            },
            Received::Disconnected => same_but_table(before, after, grabber.table())
                && fails_with(outcome, ErrorView::Protocol("Metadata channel was disconnected"@)),
        },
    }
}

/// Some arrival on the queue of scan results explains the change of the
/// grabber and what the caller is told.
pub open spec fn content_polled(
    before: Option<Grabber>,
    after: Option<Grabber>,
    outcome: Result<(), ComputationError>,
) -> bool {
    exists|fresh: Received<MetadataMessage>| #[trigger]
        content_applied(before, fresh, after, outcome)
}

/// The outcome is: ready.
pub open spec fn is_ready(outcome: Result<bool, ComputationError>) -> bool {
    outcome matches Ok(ready) && ready
}

/// The outcome is: no search results yet.
pub open spec fn is_not_ready(outcome: Result<bool, ComputationError>) -> bool {
    outcome matches Ok(ready) && !ready
}

/// What the arrival of `fresh` does to the grabber of the search results,
/// and what the caller is told.  The results lie in a file of
/// `input_file_size` bytes that ends in `last_byte`.
///
/// A grabber that is there stays, and is ready if it has its table.  Where
/// there is none, one is made for the results that arrived, with their table;
/// an empty results file and a malformed table make the call fail.  Where
/// nothing arrived there are no results yet.
pub open spec fn search_installed(
    before: Option<Grabber>,
    fresh: Received<SearchHandoff>,
    input_file_size: u64,
    last_byte: u8,
    after: Option<Grabber>,
    outcome: Result<bool, ComputationError>,
) -> bool {
    match before {
        Some(grabber) => after == before && if grabber.table() is Some {
            is_ready(outcome)
        } else {
            fails_with(outcome, ErrorView::Protocol("No metadata available for grabber"@))
        },
        None => match fresh {
            Received::Item(handoff) => if input_file_size == 0 {
                after is None && fails_with(
                    outcome,
                    ErrorView::Protocol(
                        "Fail to create search grabber. Error: "@ + config_text(
                            "Cannot grab empty file"@,
                        ),
                    ),
                )
            } else if !handoff.metadata.wf() {
                after is None && fails_with(
                    outcome,
                    ErrorView::Protocol(
                        "Fail to inject metadata into search grabber. Error: "@ + config_text(
                            "Malformed metadata"@,
                        ),
                    ),
                )
            } else {
                &&& is_ready(outcome)
                &&& after matches Some(made)
                &&& made.wf()
                &&& made.table() == Some(handoff.metadata)
                &&& made.stands_for(
                    handoff.file_path@,
                    search_source_id(),
                    input_file_size,
                    last_byte,
                )
            },
            Received::Empty => after is None && is_not_ready(outcome),
            Received::Disconnected => after is None && fails_with(
                outcome,
                ErrorView::Protocol("Search metadata channel was disconnected"@),
            ),
        },
    }
}

/// The facts of the results file could not be had: the session stays
/// without search grabber and the call fails with the reason.
pub open spec fn facts_failed(
    before: Option<Grabber>,
    after: Option<Grabber>,
    outcome: Result<bool, ComputationError>,
) -> bool {
    before is None && after is None && exists|reason: Seq<char>|
        fails_with(
            outcome,
            ErrorView::Protocol(
                "Fail to create search grabber. Error: "@ + #[trigger] config_text(reason),
            ),
        )
}

/// Some arrival on the queue of search results, for a results file of some
/// size and last byte, explains the change of the search grabber and what the
/// caller is told; or the facts of the results file could not be had.
pub open spec fn search_polled(
    before: Option<Grabber>,
    after: Option<Grabber>,
    outcome: Result<bool, ComputationError>,
) -> bool {
    ||| exists|fresh: Received<SearchHandoff>, input_file_size: u64, last_byte: u8| #[trigger]
        search_installed(before, fresh, input_file_size, last_byte, after, outcome)
    ||| facts_failed(before, after, outcome)
}

/// `stat` can be asked for the facts of any file.
pub open spec fn can_stat<S: Fn(&str) -> Result<(u64, u8), String>>(stat: S) -> bool {
    forall|p: &str| #[trigger] call_requires(stat, (p,))
}

/// The result is the failure of a read: `read` was asked for a span of the
/// file at `path` and refused, and the result tells the reason it gave.
pub open spec fn is_failed_read<T, R: Fn(&str, u64, u64) -> Result<Vec<u8>, String>>(
    r: Result<T, ComputationError>,
    read: R,
    path: Seq<char>,
) -> bool {
    r matches Err(e) && exists|reason: Seq<char>|
        e@ == ErrorView::Communication(#[trigger] io_text(reason)) && refused(read, path, reason)
}

/// What a read through a session comes to: the lines, or the grabber's
/// failure as a failure of communication.
pub open spec fn session_read(grabber: Grabber, file: Seq<u8>, range: LineRange) -> Result<
    Seq<ElementView>,
    ErrorView,
> {
    match grabber.read_outcome(file, range) {
        Ok(found) => Ok(found),
        Err(text) => Err(ErrorView::Communication(text)),
    }
}

/// The result is what was to come out.
pub open spec fn yields(
    r: Result<GrabbedContent, ComputationError>,
    want: Result<Seq<ElementView>, ErrorView>,
) -> bool {
    match want {
        Ok(found) => r matches Ok(content) && content@ == found,
        Err(e) => fails_with(r, e),
    }
}

/// The lines `start`, `start + 1`, ..., `count` of them, as far as line
/// numbers go.
pub open spec fn page_range(start: u64, count: u64) -> LineRange {
    LineRange {
        start,
        end: if start + count <= u64::MAX {
            (start + count) as u64
        } else {
            u64::MAX
        },
    }
}

/// The lines `start`, `start + 1`, ..., `count` of them.
pub fn page(start: u64, count: u64) -> (range: LineRange)
    ensures
        range == page_range(start, count),
{
    let end: u64 = if count <= u64::MAX - start {
        start + count
    } else {
        u64::MAX
    };
    LineRange::new(start, end)
}

/// A line count as the host's signed number, capped where it does not fit.
pub open spec fn len_as_i64(n: usize) -> i64 {
    if n <= i64::MAX {
        n as i64
    } else {
        i64::MAX
    }
}

/// A line count as the host's signed number.
pub fn to_host_len(n: usize) -> (len: i64)
    ensures
        len == len_as_i64(n),
        len >= 0,
{
    if n as u64 <= i64::MAX as u64 {
        n as i64
    } else {
        i64::MAX
    }
}

/// What a result comes to, as plain values.
pub open spec fn views_of(r: Result<GrabbedContent, ComputationError>) -> Result<
    Seq<ElementView>,
    ErrorView,
> {
    match r {
        Ok(content) => Ok(content@),
        Err(e) => Err(e@),
    }
}

/// What a read of `range` through `read` came to.
///
/// A range that names no line and a grabber without table fail, each in its
/// own way, and `read` is not asked.  A range that the table does not cover
/// gives no line, and `read` is not asked.  Otherwise `read` was asked for
/// the bytes of the plan, once: the lines are those that the plan picks from
/// its answer, and where it refused, the failure tells the reason it gave.
pub open spec fn lines_came<R: Fn(&str, u64, u64) -> Result<Vec<u8>, String>>(
    grabber: Grabber,
    read: R,
    range: LineRange,
    came: Result<Seq<ElementView>, ErrorView>,
) -> bool {
    if !range.wf() {
        came == Err::<Seq<ElementView>, ErrorView>(
            ErrorView::Communication(GrabError::InvalidRange(range).text()),
        )
    } else {
        match grabber.table() {
            None => came == Err::<Seq<ElementView>, ErrorView>(
                ErrorView::Communication(config_text("No metadata available"@)),
            ),
            Some(md) => match md.read_plan(range) {
                None => came == Ok::<Seq<ElementView>, ErrorView>(Seq::empty()),
                Some(plan) => exists|p: &str, got: Result<Vec<u8>, String>|
                    p@ == grabber@.path && #[trigger] call_ensures(
                        read,
                        (p, plan.bytes.start, plan.bytes.end),
                        got,
                    ) && came == match got {
                        Ok(window) => Ok::<Seq<ElementView>, ErrorView>(
                            plain_elements(grabber@.source_id, plan.lines_of(window@)),
                        ),
                        Err(text) => Err(ErrorView::Communication(io_text(text@))),
                    },
            },
        }
    }
}

/// Reads a range of lines through a grabber, from its file through `read`.
/// Where `read` fails, the call fails with what it said; otherwise the result
/// is what a read of the range from the file comes to.
pub fn read_lines<R: Fn(&str, u64, u64) -> Result<Vec<u8>, String>>(
    grabber: &Grabber,
    range: &LineRange,
    read: &R,
) -> (r: Result<GrabbedContent, ComputationError>)
    requires
        grabber.wf(),
        callable(*read),
    ensures
        lines_came(*grabber, *read, *range, views_of(r)),
        r matches Ok(content) ==> content@.len() <= range.spec_len(),
        forall|file: Seq<u8>| #[trigger]
            reads(*read, grabber@.path, file) ==> is_failed_read(r, *read, grabber@.path)
                || yields(r, session_read(*grabber, file, *range)),
{
    let inner: Result<GrabbedContent, GrabError> = grabber.get_entries_from(range, read);
    let ghost given = inner;
    let r = match inner {
        Ok(content) => Ok(content),
        Err(e) => {
            let text: String = e.to_text();
            let r = Err(ComputationError::Communication(text));
            proof {
                match e {
                    GrabError::IoOperation(reason) => {
                        assert(text@ == io_text(reason@));
                        assert(refused(*read, grabber@.path, reason@));
                        assert(is_failed_read(r, *read, grabber@.path));
                    },
                    _ => {},
                }
            }
            r
        },
    };
    proof {
        if range.wf() {
            if let Some(md) = grabber.table() {
                match md.read_plan(*range) {
                    None => {
                        assert(views_of(r)->Ok_0 =~= Seq::<ElementView>::empty());
                    },
                    Some(plan) => {
                        assert(grabber.window_gave(*read, plan, given));
                        let (p, got) = choose|p: &str, got: Result<Vec<u8>, String>|
                            p@ == grabber@.path && #[trigger] call_ensures(
                                *read,
                                (p, plan.bytes.start, plan.bytes.end),
                                got,
                            ) && match got {
                                Ok(window) => given matches Ok(content) && content@
                                    == plain_elements(
                                    grabber@.source_id,
                                    plan.lines_of(window@),
                                ),
                                Err(text) => given matches Err(GrabError::IoOperation(reason))
                                    && reason@ == text@,
                            };
                        assert(call_ensures(*read, (p, plan.bytes.start, plan.bytes.end), got));
                    },
                }
            }
        }
    }
    r
}

/// The lines `found`, numbered: line `j` gets the position `pos + j` and the
/// row `row + j`.
pub open spec fn annotated(found: Seq<ElementView>, pos: int, row: int) -> Seq<ElementView> {
    Seq::new(
        found.len(),
        |j: int|
            ElementView {
                source_id: found[j].source_id,
                content: found[j].content,
                row: Some((row + j) as u64),
                pos: Some((pos + j) as u64),
            },
    )
}

/// The rows for a list of runs: the lines of each run are read from the
/// file, numbered by their place in the file, and given the rows that follow
/// those of the runs before.  The first read that fails makes the whole fail.
pub open spec fn rows_of(grabber: Grabber, file: Seq<u8>, runs: Seq<PositionRun>, row: int) -> Result<
    Seq<ElementView>,
    ErrorView,
>
    decreases runs.len(),
{
    if runs.len() == 0 {
        Ok(Seq::empty())
    } else {
        match rows_of(grabber, file, runs.drop_last(), row) {
            Err(e) => Err(e),
            Ok(rows) => match session_read(grabber, file, runs.last().line_range()) {
                Err(e) => Err(e),
                Ok(found) => Ok(
                    rows + annotated(found, runs.last().first - 1, row + rows.len()),
                ),
            },
        }
    }
}

/// The line numbers of a page of search results, or why the page holds
/// none: the first element that is no line number.
pub open spec fn page_positions(page: Seq<ElementView>) -> Result<Seq<u64>, ErrorView> {
    if all_positions(page, page.len() as int) {
        Ok(positions_of(page))
    } else {
        let k = choose|k: int|
            0 <= k < page.len() && all_positions(page, k) && position_of(
                (#[trigger] page[k]).content,
            ) is None;
        Err(bad_position(page[k].content))
    }
}

/// Once the rows of some of the runs have failed, the rows of all of them
/// fail in the same way.
pub proof fn lemma_rows_failure_stays(
    grabber: Grabber,
    file: Seq<u8>,
    runs: Seq<PositionRun>,
    n: int,
    row: int,
)
    requires
        0 <= n <= runs.len(),
        rows_of(grabber, file, runs.take(n), row) is Err,
    ensures
        rows_of(grabber, file, runs, row) == rows_of(grabber, file, runs.take(n), row),
    decreases runs.len() - n,
{
    if n < runs.len() {
        assert(runs.take(n + 1).drop_last() == runs.take(n));
        lemma_rows_failure_stays(grabber, file, runs, n + 1, row);
    } else {
        assert(runs.take(n) == runs);
    }
}

/// What reading one more run came to, after the runs before it came to
/// `head`: nothing is read after a failure; otherwise the lines of the run are
/// read as `lines_came` says, numbered by their place in the file, and given
/// the rows that follow those of the runs before.
pub open spec fn row_step<R: Fn(&str, u64, u64) -> Result<Vec<u8>, String>>(
    grabber: Grabber,
    read: R,
    run: PositionRun,
    row: int,
    head: Result<Seq<ElementView>, ErrorView>,
    came: Result<Seq<ElementView>, ErrorView>,
) -> bool {
    match head {
        Err(e) => came == Err::<Seq<ElementView>, ErrorView>(e),
        Ok(rows) => exists|found: Result<Seq<ElementView>, ErrorView>| #[trigger]
            lines_came(grabber, read, run.line_range(), found) && came == match found {
                Err(e) => Err::<Seq<ElementView>, ErrorView>(e),
                Ok(lines) => Ok(rows + annotated(lines, run.first - 1, row + rows.len())),
            },
    }
}

/// What reading the rows of a list of runs through `read` came to.  The
/// runs are read one after the other, up to the first read that fails.
pub open spec fn rows_came<R: Fn(&str, u64, u64) -> Result<Vec<u8>, String>>(
    grabber: Grabber,
    read: R,
    runs: Seq<PositionRun>,
    row: int,
    came: Result<Seq<ElementView>, ErrorView>,
) -> bool
    decreases runs.len(),
{
    if runs.len() == 0 {
        came == Ok::<Seq<ElementView>, ErrorView>(Seq::empty())
    } else {
        exists|head: Result<Seq<ElementView>, ErrorView>|
            rows_came(grabber, read, runs.drop_last(), row, head) && #[trigger] row_step(
                grabber,
                read,
                runs.last(),
                row,
                head,
                came,
            )
    }
}

/// Once the reading of some of the runs has failed, the reading of all of
/// them has failed in the same way.
pub proof fn lemma_rows_came_failure_stays<R: Fn(&str, u64, u64) -> Result<Vec<u8>, String>>(
    grabber: Grabber,
    read: R,
    runs: Seq<PositionRun>,
    n: int,
    row: int,
    e: ErrorView,
)
    requires
        0 <= n <= runs.len(),
        rows_came(grabber, read, runs.take(n), row, Err::<Seq<ElementView>, ErrorView>(e)),
    ensures
        rows_came(grabber, read, runs, row, Err::<Seq<ElementView>, ErrorView>(e)),
    decreases runs.len() - n,
{
    if n < runs.len() {
        let next = runs.take(n + 1);
        let failed = Err::<Seq<ElementView>, ErrorView>(e);
        assert(next.drop_last() == runs.take(n));
        assert(row_step(grabber, read, next.last(), row, failed, failed));
        assert(rows_came(grabber, read, next, row, failed));
        lemma_rows_came_failure_stays(grabber, read, runs, n + 1, row, e);
    } else {
        assert(runs.take(n) == runs);
    }
}

/// The elements of a list, as plain values.
pub open spec fn element_views(elements: Seq<GrabbedElement>) -> Seq<ElementView> {
    Seq::new(elements.len(), |i: int| elements[i]@)
}

/// Numbers the lines `found`, from the position `pos` and the row `row` on,
/// and puts them behind `rows`.
pub fn append_numbered(rows: &mut Vec<GrabbedElement>, found: &GrabbedContent, pos: u64, row: u64)
    requires
        pos + found@.len() <= u64::MAX,
        row + found@.len() <= u64::MAX,
    ensures
        final(rows)@.len() == old(rows)@.len() + found@.len(),
        element_views(final(rows)@) == element_views(old(rows)@) + annotated(
            found@,
            pos as int,
            row as int,
        ),
{
    let ghost before = element_views(rows@);
    let ghost want = annotated(found@, pos as int, row as int);
    let mut j: usize = 0;
    assert(element_views(rows@) =~= before + want.take(0));
    while j < found.grabbed_elements.len()
        invariant
            0 <= j <= found@.len(),
            found@.len() == found.grabbed_elements@.len(),
            pos + found@.len() <= u64::MAX,
            row + found@.len() <= u64::MAX,
            want == annotated(found@, pos as int, row as int),
            rows@.len() == before.len() + j,
            element_views(rows@) == before + want.take(j as int),
        decreases found@.len() - j,
    {
        let element: &GrabbedElement = &found.grabbed_elements[j];
        assert(found@[j as int] == element@);
        let numbered = GrabbedElement {
            source_id: element.source_id.clone(),
            content: element.content.clone(),
            row: Some(row + j as u64),
            pos: Some(pos + j as u64),
        };
        assert(numbered@ == want[j as int]);
        let ghost filled = element_views(rows@);
        rows.push(numbered);
        assert(element_views(rows@) =~= filled.push(numbered@));
        assert(filled.push(want[j as int]) =~= before + want.take(j + 1));
        j = j + 1;
    }
    assert(want.take(found@.len() as int) == want);
}

/// Reads the lines of each run from the grabber's file through `read` and
/// numbers them: rows go on from `start`, positions are the places of the
/// lines in the file.  The first read that fails ends the call.
pub fn read_rows<R: Fn(&str, u64, u64) -> Result<Vec<u8>, String>>(
    content: &Grabber,
    runs: &Vec<PositionRun>,
    start: u64,
    read: &R,
) -> (r: Result<GrabbedContent, ComputationError>)
    requires
        content.wf(),
        callable(*read),
        forall|k: int| 0 <= k < runs@.len() ==> 1 <= (#[trigger] runs@[k]).first <= runs@[k].last,
        start + total_len(runs@) <= u64::MAX,
    ensures
        rows_came(*content, *read, runs@, start as int, views_of(r)),
        forall|file: Seq<u8>| #[trigger]
            reads(*read, content@.path, file) ==> is_failed_read(r, *read, content@.path)
                || yields(r, rows_of(*content, file, runs@, start as int)),
{
    let mut results: Vec<GrabbedElement> = Vec::new();
    let mut row: u64 = start;
    let mut i: usize = 0;
    proof {
        assert(runs@.take(0) == Seq::<PositionRun>::empty());
        lemma_total_len_prefix(runs@, 0);
        assert(element_views(results@) =~= Seq::<ElementView>::empty());
    }
    while i < runs.len()
        invariant
            content.wf(),
            callable(*read),
            0 <= i <= runs@.len(),
            forall|k: int|
                0 <= k < runs@.len() ==> 1 <= (#[trigger] runs@[k]).first <= runs@[k].last,
            start + total_len(runs@) <= u64::MAX,
            forall|file: Seq<u8>| #[trigger]
                reads(*read, content@.path, file) ==> rows_of(
                    *content,
                    file,
                    runs@.take(i as int),
                    start as int,
                ) == Ok::<Seq<ElementView>, ErrorView>(element_views(results@)),
            rows_came(
                *content,
                *read,
                runs@.take(i as int),
                start as int,
                Ok::<Seq<ElementView>, ErrorView>(element_views(results@)),
            ),
            results@.len() <= total_len(runs@.take(i as int)),
            row == start + results@.len(),
        decreases runs@.len() - i,
    {
        let run: PositionRun = runs[i];
        let range: LineRange = run.to_line_range();
        let ghost before = element_views(results@);
        proof {
            assert(runs@.take(i + 1).drop_last() == runs@.take(i as int));
            assert(runs@.take(i + 1).last() == run);
            lemma_total_len_prefix(runs@, i as int);
            lemma_total_len_prefix(runs@, i + 1);
        }
        let found: GrabbedContent = match read_lines(content, &range, read) {
            Ok(found) => found,
            Err(e) => {
                let r = Err(e);
                proof {
                    let head = Ok::<Seq<ElementView>, ErrorView>(before);
                    let failed = Err::<Seq<ElementView>, ErrorView>(e@);
                    assert(lines_came(*content, *read, run.line_range(), failed));
                    assert(row_step(*content, *read, run, start as int, head, failed));
                    assert(rows_came(*content, *read, runs@.take(i + 1), start as int, failed));
                    lemma_rows_came_failure_stays(
                        *content,
                        *read,
                        runs@,
                        i + 1,
                        start as int,
                        e@,
                    );
                    assert forall|file: Seq<u8>| #[trigger]
                        reads(*read, content@.path, file) implies is_failed_read(
                        r,
                        *read,
                        content@.path,
                    ) || yields(r, rows_of(*content, file, runs@, start as int)) by {
                        if !is_failed_read(r, *read, content@.path) {
                            lemma_rows_failure_stays(*content, file, runs@, i + 1, start as int);
                        }
                    }
                }
                return r;
            },
        };
        append_numbered(&mut results, &found, range.start, row);
        proof {
            let head = Ok::<Seq<ElementView>, ErrorView>(before);
            let lines = Ok::<Seq<ElementView>, ErrorView>(found@);
            let next = Ok::<Seq<ElementView>, ErrorView>(element_views(results@));
            assert(lines_came(*content, *read, run.line_range(), lines));
            assert(row_step(*content, *read, run, start as int, head, next));
            assert(rows_came(*content, *read, runs@.take(i + 1), start as int, next));
            assert forall|file: Seq<u8>| #[trigger]
                reads(*read, content@.path, file) implies rows_of(
                *content,
                file,
                runs@.take(i + 1),
                start as int,
            ) == Ok::<Seq<ElementView>, ErrorView>(element_views(results@)) by {
                assert(!is_failed_read(
                    Ok::<GrabbedContent, ComputationError>(found),
                    *read,
                    content@.path,
                ));
                assert(session_read(*content, file, range) == Ok::<Seq<ElementView>, ErrorView>(
                    found@,
                ));
            }
        }
        row = row + found.grabbed_elements.len() as u64;
        i = i + 1;
    }
    assert(runs@.take(runs@.len() as int) == runs@);
    let content = GrabbedContent { grabbed_elements: results };
    assert(content@ =~= element_views(results@));
    Ok(content)
}

/// The runs of line numbers that a page of search results names.
pub open spec fn search_page_runs(search: Grabber, search_file: Seq<u8>, start: u64, count: u64) -> Result<
    Seq<PositionRun>,
    ErrorView,
> {
    match session_read(search, search_file, page_range(start, count)) {
        Err(e) => Err(e),
        Ok(page) => match page_positions(page) {
            Err(e) => Err(e),
            Ok(positions) => Ok(coalesce(positions)),
        },
    }
}

/// The runs of a result, as plain values.
pub open spec fn runs_of(r: Result<Vec<PositionRun>, ComputationError>) -> Result<
    Seq<PositionRun>,
    ErrorView,
> {
    match r {
        Ok(runs) => Ok(runs@),
        Err(e) => Err(e@),
    }
}

/// The runs that a page names, or why it names none.
pub open spec fn runs_on(listed: Result<Seq<ElementView>, ErrorView>) -> Result<
    Seq<PositionRun>,
    ErrorView,
> {
    match listed {
        Err(e) => Err(e),
        Ok(page) => match page_positions(page) {
            Err(e) => Err(e),
            Ok(positions) => Ok(coalesce(positions)),
        },
    }
}

/// What reading a page of search results through `read` came to: the page
/// was read as `lines_came` says, and the line numbers on it were gathered
/// into runs.
pub open spec fn page_came<R: Fn(&str, u64, u64) -> Result<Vec<u8>, String>>(
    search: Grabber,
    read: R,
    start: u64,
    count: u64,
    came: Result<Seq<PositionRun>, ErrorView>,
) -> bool {
    exists|listed: Result<Seq<ElementView>, ErrorView>| #[trigger]
        lines_came(search, read, page_range(start, count), listed) && came == runs_on(listed)
}

/// The result is the runs that a page of search results names in `file`.
pub open spec fn page_gave(
    search: Grabber,
    file: Seq<u8>,
    start: u64,
    count: u64,
    r: Result<Vec<PositionRun>, ComputationError>,
) -> bool {
    match search_page_runs(search, file, start, count) {
        Ok(runs) => r matches Ok(found) && found@ == runs,
        Err(e) => fails_with(r, e),
    }
}

/// Reads a page of search results through `read` and gathers the line
/// numbers on it into runs.  Each run begins at line number 1 or above, and
/// the runs hold at most as many line numbers as the page has room for.
pub fn read_search_page<R: Fn(&str, u64, u64) -> Result<Vec<u8>, String>>(
    search: &Grabber,
    start: u64,
    count: u64,
    read: &R,
) -> (r: Result<Vec<PositionRun>, ComputationError>)
    requires
        search.wf(),
        callable(*read),
    ensures
        page_came(*search, *read, start, count, runs_of(r)),
        forall|file: Seq<u8>| #[trigger]
            reads(*read, search@.path, file) ==> is_failed_read(r, *read, search@.path)
                || page_gave(*search, file, start, count, r),
        r matches Ok(found) ==> start + total_len(found@) <= u64::MAX && forall|k: int|
            0 <= k < found@.len() ==> 1 <= (#[trigger] found@[k]).first <= found@[k].last,
{
    let range: LineRange = page(start, count);
    let listed: GrabbedContent = match read_lines(search, &range, read) {
        Ok(listed) => listed,
        Err(e) => {
            let r = Err(e);
            assert(lines_came(
                *search,
                *read,
                page_range(start, count),
                Err::<Seq<ElementView>, ErrorView>(e@),
            ));
            assert(is_failed_read(r, *read, search@.path) == is_failed_read(
                Err::<GrabbedContent, ComputationError>(e),
                *read,
                search@.path,
            ));
            return r;
        },
    };
    assert(!is_failed_read(Ok::<GrabbedContent, ComputationError>(listed), *read, search@.path));
    assert(lines_came(
        *search,
        *read,
        page_range(start, count),
        Ok::<Seq<ElementView>, ErrorView>(listed@),
    ));
    let positions: Vec<u64> = match search_positions(&listed) {
        Ok(positions) => positions,
        Err(e) => {
            proof {
                let k = choose|k: int|
                    0 <= k < listed@.len() && all_positions(listed@, k) && position_of(
                        (#[trigger] listed@[k]).content,
                    ) is None;
                let w = choose|w: int|
                    0 <= w < listed@.len() && all_positions(listed@, w) && position_of(
                        (#[trigger] listed@[w]).content,
                    ) is None && fails_with(
                        Err::<Vec<u64>, ComputationError>(e),
                        bad_position(listed@[w].content),
                    );
                if k < w {
                    assert(position_of(listed@[k].content) is Some);
                } else if w < k {
                    assert(position_of(listed@[w].content) is Some);
                }
            }
            return Err(e);
        },
    };
    proof {
        lemma_coalesce_expand(positions@);
        assert forall|i: int| 0 <= i < positions@.len() implies #[trigger] positions@[i] >= 1 by {
            assert(position_of(listed@[i].content) is Some);
        }
        lemma_coalesce_floor(positions@, 1);
    }
    Ok(coalesce_positions(&positions))
}

/// The worker's side of a session: the ends of the queues on which results
/// are handed over.
pub struct SessionWorker {
    content_metadata_tx: Sender<MetadataMessage>,
    content_metadata_rx: Receiver<MetadataMessage>,
    search_metadata_tx: Sender<SearchHandoff>,
    search_metadata_rx: Receiver<SearchHandoff>,
}

impl SessionWorker {
    /// The receiving end of the queue that the worker puts scan results on.
    pub closed spec fn content_queue(&self) -> Receiver<MetadataMessage> {
        self.content_metadata_rx
    }

    /// The receiving end of the queue that the worker puts search results
    /// on.
    pub closed spec fn search_queue(&self) -> Receiver<SearchHandoff> {
        self.search_metadata_rx
    }

    /// The sending end of the queue that the worker puts scan results on.
    pub closed spec fn content_sender(&self) -> Sender<MetadataMessage> {
        self.content_metadata_tx
    }

    /// The sending end of the queue that the worker puts search results on.
    pub closed spec fn search_sender(&self) -> Sender<SearchHandoff> {
        self.search_metadata_tx
    }

    /// Puts a scan result on its queue, in place of one that still waits
    /// there.
    pub fn publish_content(&self, message: MetadataMessage) {
        publish(&self.content_metadata_tx, &self.content_metadata_rx, message);
    }

    /// Puts search results on their queue, in place of those that still
    /// wait there.
    pub fn publish_search(&self, handoff: SearchHandoff) {
        publish(&self.search_metadata_tx, &self.search_metadata_rx, handoff);
    }
}

/// The job that `assign` hands to the worker: it names the file and the
/// source, carries a new id, and has the file type that the path's extension
/// decides.
pub open spec fn is_assign_job(
    job: Operation,
    file_path: Seq<char>,
    source_id: Seq<char>,
    id_text: Seq<char>,
) -> bool {
    job matches Operation::Assign { file_path: path, source_id: source, operation_id, source_type }
        && path@ == file_path && source@ == source_id && operation_id.is_random()
        && operation_id.text() == id_text && (!file_path.contains('.') ==> source_type
        == SupportedFileType::Text) && (forall|stem: Seq<char>, ext: Seq<char>| #[trigger]
        is_plain_name(file_path, stem, ext) ==> source_type == type_for(lowercase_of(ext)))
}

/// The job that `search` hands to the worker.
pub open spec fn is_search_job(
    job: Operation,
    target_file: Seq<char>,
    wrapped: Seq<WrappedSearchFilter>,
    id_text: Seq<char>,
) -> bool {
    job matches Operation::Search { target_file: target, filters, operation_id } && target@
        == target_file && operation_id.is_random() && operation_id.text() == id_text
        && filters@.len() == wrapped.len() && forall|i: int|
        0 <= i < wrapped.len() ==> filters@[i] == (#[trigger] wrapped[i]).0
}

impl RustSession {
    /// The grabbers, where there are any, are well formed.
    pub open spec fn wf(&self) -> bool {
        &&& grabber_wf(self@.content_grabber)
        &&& grabber_wf(self@.search_grabber)
    }

    /// The receiving end of the queue on which scan results arrive.
    pub closed spec fn content_queue(&self) -> Receiver<MetadataMessage> {
        self.content_metadata_rx
    }

    /// The receiving end of the queue on which search results arrive.
    pub closed spec fn search_queue(&self) -> Receiver<SearchHandoff> {
        self.search_metadata_rx
    }

    /// The sending end of the queue on which scan results arrive.
    pub closed spec fn content_sender(&self) -> Sender<MetadataMessage> {
        self.content_metadata_tx
    }

    /// The sending end of the queue on which search results arrive.
    pub closed spec fn search_sender(&self) -> Sender<SearchHandoff> {
        self.search_metadata_tx
    }

    /// The session holds the ends of the queues that `other` holds.
    pub open spec fn same_queues(&self, other: &RustSession) -> bool {
        &&& self.content_queue() == other.content_queue()
        &&& self.search_queue() == other.search_queue()
        &&& self.content_sender() == other.content_sender()
        &&& self.search_sender() == other.search_sender()
    }

    /// A session that has no file yet and no worker.
    pub fn new(id: String) -> (session: RustSession)
        ensures
            session.wf(),
            session@.id == id@,
            !session@.running,
            session@.content_grabber is None,
            session@.search_grabber is None,
    {
        let (content_metadata_tx, content_metadata_rx) = bounded_queue::<MetadataMessage>(1);
        let (search_metadata_tx, search_metadata_rx) = bounded_queue::<SearchHandoff>(1);
        RustSession {
            id,
            running: false,
            content_grabber: None,
            search_grabber: None,
            content_metadata_tx,
            content_metadata_rx,
            search_metadata_tx,
            search_metadata_rx,
        }
    }

    pub fn id(&self) -> (id: String)
        ensures
            id@ == self@.id,
    {
        self.id.clone()
    }

    /// Whether the worker was started and not yet told to leave.
    pub fn is_running(&self) -> (running: bool)
        ensures
            running == self@.running,
    {
        self.running
    }

    /// The grabber of the assigned file.
    pub fn content_grabber(&self) -> (r: Option<&Grabber>)
        ensures
            match r {
                Some(g) => self@.content_grabber == Some(*g),
                None => self@.content_grabber is None,
            },
    {
        self.content_grabber.as_ref()
    }

    /// The grabber of the search results.
    pub fn search_grabber(&self) -> (r: Option<&Grabber>)
        ensures
            match r {
                Some(g) => self@.search_grabber == Some(*g),
                None => self@.search_grabber is None,
            },
    {
        self.search_grabber.as_ref()
    }

    /// Marks the session as running and hands out the worker's side of it:
    /// a worker on the session's own queues, so that what the worker hands
    /// over arrives at the session.
    pub fn start(&mut self) -> (worker: SessionWorker)
        ensures
            final(self)@ == (SessionView { running: true, ..old(self)@ }),
            final(self).same_queues(old(self)),
            worker.content_queue() == old(self).content_queue(),
            worker.search_queue() == old(self).search_queue(),
            worker.content_sender() == old(self).content_sender(),
            worker.search_sender() == old(self).search_sender(),
    {
        self.running = true;
        SessionWorker {
            content_metadata_tx: share_sender(&self.content_metadata_tx),
            content_metadata_rx: share_receiver(&self.content_metadata_rx),
            search_metadata_tx: share_sender(&self.search_metadata_tx),
            search_metadata_rx: share_receiver(&self.search_metadata_rx),
        }
    }

    /// Marks the session as no longer running.  The job that is returned
    /// tells the worker to leave.
    pub fn stop(&mut self) -> (job: Operation)
        ensures
            job == Operation::End,
            final(self)@ == (SessionView { running: false, ..old(self)@ }),
            final(self).same_queues(old(self)),
    {
        self.running = false;
        Operation::End
    }

    /// Takes a file to work on: a file of `input_file_size` bytes, the last
    /// of which is `last_byte`.
    ///
    /// An empty file is refused and the session stays as it was.  For any
    /// other file the session gets a grabber that has no slot table yet, and
    /// the caller gets the text of a new operation id together with the job
    /// that makes the worker scan the file.
    pub fn assign(
        &mut self,
        file_path: String,
        source_id: String,
        input_file_size: u64,
        last_byte: u8,
    ) -> (r: Result<(String, Operation), ComputationError>)
        requires
            old(self).wf(),
        ensures
            final(self).wf(),
            final(self)@.id == old(self)@.id,
            final(self)@.running == old(self)@.running,
            final(self).same_queues(old(self)),
            final(self)@.search_grabber == old(self)@.search_grabber,
            input_file_size == 0 ==> final(self)@.content_grabber == old(self)@.content_grabber
                && fails_with(
                r,
                ErrorView::Process(
                    "Could not create grabber: "@ + config_text("Cannot grab empty file"@),
                ),
            ),
            input_file_size > 0 ==> {
                &&& r matches Ok(started)
                &&& is_assign_job(started.1, file_path@, source_id@, started.0@)
                &&& final(self)@.content_grabber matches Some(g)
                &&& g.table() is None
                &&& g.stands_for(file_path@, source_id@, input_file_size, last_byte)
            },
    {
        let operation_id: OperationId = OperationId::fresh();
        let source_type: SupportedFileType = match get_supported_file_type(file_path.as_str()) {
            Some(source_type) => source_type,
            None => {
                return Err(
                    ComputationError::OperationNotSupported("Unsupported file type".to_owned()),
                );
            },
        };
        let grabber: Grabber = match Grabber::lazy(
            file_path.as_str(),
            source_id.as_str(),
            input_file_size,
            last_byte,
        ) {
            Ok(grabber) => grabber,
            Err(e) => {
                let text: String = e.to_text();
                return Err(
                    ComputationError::Process(join("Could not create grabber: ", text.as_str())),
                );
            },
        };
        self.content_grabber = Some(grabber);
        let id_text: String = operation_id.to_text();
        Ok((id_text, Operation::Assign { file_path, source_id, operation_id, source_type }))
    }

    /// Asks for a search of the assigned file.
    ///
    /// Whatever an earlier search left behind is dropped.  Without an
    /// assigned file the call fails; otherwise the caller gets the text of a
    /// new operation id together with the job that makes the worker search.
    pub fn search(&mut self, filters: Vec<WrappedSearchFilter>) -> (r: Result<
        (String, Operation),
        ComputationError,
    >)
        requires
            old(self).wf(),
        ensures
            final(self).wf(),
            final(self)@ == (SessionView { search_grabber: None, ..old(self)@ }),
            final(self).same_queues(old(self)),
            old(self)@.content_grabber is None ==> r == Err::<
                (String, Operation),
                ComputationError,
            >(ComputationError::NoAssignedContent),
            old(self)@.content_grabber matches Some(g) ==> (r matches Ok(started)
                && is_search_job(started.1, g@.path, filters@, started.0@)),
    {
        self.search_grabber = None;
        let target_file: String = match &self.content_grabber {
            Some(content) => content.path().clone(),
            None => {
                return Err(ComputationError::NoAssignedContent);
            },
        };
        let operation_id: OperationId = OperationId::fresh();
        let plain: Vec<SearchFilter> = unwrap_filters(&filters);
        let id_text: String = operation_id.to_text();
        Ok((id_text, Operation::Search { target_file, filters: plain, operation_id }))
    }

    /// The failure to report where a job could not be handed to the worker.
    pub fn operation_not_sent() -> (e: ComputationError)
        ensures
            e@ == ErrorView::Process("Could not send operation on channel"@),
    {
        ComputationError::Process("Could not send operation on channel".to_owned())
    }

    /// Takes what the queue of scan results gave, and says whether the
    /// grabber of the assigned file is ready to be read from.
    pub fn apply_content_metadata(&mut self, fresh: Received<MetadataMessage>) -> (r: Result<
        (),
        ComputationError,
    >)
        requires
            old(self).wf(),
        ensures
            final(self).wf(),
            final(self)@.id == old(self)@.id,
            final(self)@.running == old(self)@.running,
            final(self).same_queues(old(self)),
            final(self)@.search_grabber == old(self)@.search_grabber,
            content_applied(old(self)@.content_grabber, fresh, final(self)@.content_grabber, r),
            r is Ok ==> table_of_grabber(final(self)@.content_grabber) is Some,
    {
        let mut grabber: Grabber = match self.content_grabber.take() {
            Some(grabber) => grabber,
            None => {
                return Err(
                    ComputationError::Protocol(
                        "Need a grabber first to work with metadata".to_owned(),
                    ),
                );
            },
        };
        let outcome: Result<(), ComputationError> = match fresh {
            Received::Item(Ok(Some(metadata))) => match grabber.inject_metadata(metadata) {
                Ok(()) => Ok(()),
                Err(e) => {
                    let text: String = e.to_text();
                    Err(ComputationError::Process(text))
                },
            },
            Received::Item(Ok(None)) => Err(
                ComputationError::Protocol("No metadata available".to_owned()),
            ),
            Received::Item(Err(e)) => {
                let text: String = e.to_text();
                Err(
                    ComputationError::Protocol(
                        join("Problems during metadata generation: ", text.as_str()),
                    ),
                )
            },
            Received::Empty => if grabber.metadata().is_some() {
                Ok(())
            } else {
                Err(ComputationError::Protocol("No metadata available for grabber".to_owned()))
            },
            Received::Disconnected => Err(
                ComputationError::Protocol("Metadata channel was disconnected".to_owned()),
            ),
        };
        self.content_grabber = Some(grabber);
        outcome
    }

    /// Looks for a new scan result and says whether the grabber of the
    /// assigned file is ready to be read from.  The queue is asked only where
    /// there is a grabber.
    pub fn get_content_grabber(&mut self) -> (r: Result<(), ComputationError>)
        requires
            old(self).wf(),
        ensures
            final(self).wf(),
            final(self)@.id == old(self)@.id,
            final(self)@.running == old(self)@.running,
            final(self).same_queues(old(self)),
            final(self)@.search_grabber == old(self)@.search_grabber,
            content_polled(old(self)@.content_grabber, final(self)@.content_grabber, r),
            r is Ok ==> table_of_grabber(final(self)@.content_grabber) is Some,
    {
        let fresh: Received<MetadataMessage> = if self.content_grabber.is_some() {
            poll(&self.content_metadata_rx)
        } else {
            Received::Empty
        };
        let ghost seen = fresh;
        let r = self.apply_content_metadata(fresh);
        assert(content_applied(old(self)@.content_grabber, seen, self@.content_grabber, r));
        r
    }
}

/// What `get_stream_len` answers after the queue of scan results was asked.
pub open spec fn stream_len_after(
    content: Option<Grabber>,
    polled: Result<(), ComputationError>,
    r: Result<i64, ComputationError>,
) -> bool {
    match polled {
        Err(e) => fails_with(r, e@),
        Ok(_) => table_of_grabber(content) matches Some(md) && r == Ok::<i64, ComputationError>(
            len_as_i64(md.line_count),
        ),
    }
}

/// What `get_search_len` answers after the queue of search results was
/// asked: nothing to count without results, else one less than the lines
/// that the scan of the results counted.
pub open spec fn search_len_after(
    search: Option<Grabber>,
    searched: Result<bool, ComputationError>,
    r: Result<i64, ComputationError>,
) -> bool {
    match searched {
        Err(e) => fails_with(r, e@),
        Ok(ready) => r == Ok::<i64, ComputationError>(
            match table_of_grabber(search) {
                Some(md) => if ready {
                    (len_as_i64(md.line_count) - 1) as i64
                } else {
                    0
                },
                None => 0,
            },
        ),
    }
}

/// What `grab` answers after the queue of scan results was asked: the
/// failure of the poll, or what the read of the range through `read` came to;
/// and so, whatever the file holds, the failure of the read or what a read of
/// the range from the file comes to.
pub open spec fn grab_after<R: Fn(&str, u64, u64) -> Result<Vec<u8>, String>>(
    content: Option<Grabber>,
    polled: Result<(), ComputationError>,
    read: R,
    range: LineRange,
    r: Result<GrabbedContent, ComputationError>,
) -> bool {
    match polled {
        Err(e) => fails_with(r, e@),
        Ok(_) => content matches Some(g) && lines_came(g, read, range, views_of(r))
            && forall|file: Seq<u8>| #[trigger]
            reads(read, g@.path, file) ==> is_failed_read(r, read, g@.path) || yields(
                r,
                session_read(g, file, range),
            ),
    }
}

/// What `grab_search` came to after the queue of search results was asked.
///
/// Where the poll failed, the call fails with it; without results there are
/// no rows.  With results, the page is read through `read` and its line
/// numbers are gathered into runs; a page that fails, and a page without a
/// line number, end the call and leave the grabber of the assigned file
/// alone.  Otherwise the queue of scan results is asked, and the rows are
/// read through `read`.
pub open spec fn grab_search_came<R: Fn(&str, u64, u64) -> Result<Vec<u8>, String>>(
    read: R,
    content_before: Option<Grabber>,
    content_after: Option<Grabber>,
    search_after: Option<Grabber>,
    searched: Result<bool, ComputationError>,
    start: u64,
    count: u64,
    came: Result<Seq<ElementView>, ErrorView>,
) -> bool {
    match searched {
        Err(e) => content_after == content_before && came == Err::<Seq<ElementView>, ErrorView>(
            e@,
        ),
        Ok(ready) => if !ready {
            content_after == content_before && came == Ok::<Seq<ElementView>, ErrorView>(
                Seq::empty(),
            )
        } else {
            search_after matches Some(search) && exists|listed: Result<Seq<PositionRun>, ErrorView>|
             #[trigger]
                page_came(search, read, start, count, listed) && match listed {
                    Err(e) => content_after == content_before && came == Err::<
                        Seq<ElementView>,
                        ErrorView,
                    >(e),
                    Ok(runs) => if runs.len() == 0 {
                        content_after == content_before && came == Ok::<
                            Seq<ElementView>,
                            ErrorView,
                        >(Seq::empty())
                    } else {
                        exists|polled: Result<(), ComputationError>| #[trigger]
                            content_polled(content_before, content_after, polled)
                                && match polled {
                                Err(e) => came == Err::<Seq<ElementView>, ErrorView>(e@),
                                Ok(_) => content_after matches Some(content) && rows_came(
                                    content,
                                    read,
                                    runs,
                                    start as int,
                                    came,
                                ),
                            }
                    },
                }
        },
    }
}

/// What the rows of `runs` are, whatever the file of the assigned file's
/// grabber holds: after the poll of the queue of scan results, the failure of
/// the poll, the failure of a read, or the rows that the runs name in the
/// file.
pub open spec fn rows_gave<R: Fn(&str, u64, u64) -> Result<Vec<u8>, String>>(
    read: R,
    content_before: Option<Grabber>,
    content_after: Option<Grabber>,
    runs: Seq<PositionRun>,
    start: u64,
    r: Result<GrabbedContent, ComputationError>,
) -> bool {
    exists|polled: Result<(), ComputationError>| #[trigger]
        content_polled(content_before, content_after, polled) && match polled {
            Err(e) => fails_with(r, e@),
            Ok(_) => content_after matches Some(content) && forall|content_file: Seq<u8>|
             #[trigger]
                reads(read, content@.path, content_file) ==> is_failed_read(
                    r,
                    read,
                    content@.path,
                ) || yields(r, rows_of(content, content_file, runs, start as int)),
        }
}

/// What the answer of `grab_search` is, whatever the files of the two
/// grabbers hold.  The failure of a read stands only where a read is made:
/// that of the results once there are results, that of the assigned file once
/// the page has named a line.
pub open spec fn grab_search_gave<R: Fn(&str, u64, u64) -> Result<Vec<u8>, String>>(
    read: R,
    content_before: Option<Grabber>,
    content_after: Option<Grabber>,
    search_after: Option<Grabber>,
    searched: Result<bool, ComputationError>,
    start: u64,
    count: u64,
    r: Result<GrabbedContent, ComputationError>,
) -> bool {
    match searched {
        Err(e) => content_after == content_before && fails_with(r, e@),
        Ok(ready) => if !ready {
            content_after == content_before && yields(r, Ok(Seq::empty()))
        } else {
            search_after matches Some(search) && forall|search_file: Seq<u8>| #[trigger]
                reads(read, search@.path, search_file) ==> (content_after == content_before
                    && is_failed_read(r, read, search@.path)) || match search_page_runs(
                    search,
                    search_file,
                    start,
                    count,
                ) {
                    Err(e) => content_after == content_before && fails_with(r, e),
                    Ok(runs) => if runs.len() == 0 {
                        content_after == content_before && yields(r, Ok(Seq::empty()))
                    } else {
                        rows_gave(read, content_before, content_after, runs, start, r)
                    },
                }
        },
    }
}

/// The grabber of the assigned file is as it was, or as some arrival on the
/// queue of scan results left it.
pub open spec fn kept_or_polled(before: Option<Grabber>, after: Option<Grabber>) -> bool {
    after == before || exists|polled: Result<(), ComputationError>| #[trigger]
        content_polled(before, after, polled)
}

impl RustSession {
    /// Asks the queue of search results, unless the session has a search
    /// grabber already.
    pub fn poll_search_metadata(&self) -> (fresh: Received<SearchHandoff>)
        ensures
            self@.search_grabber is Some ==> fresh is Empty,
    {
        if self.search_grabber.is_none() {
            poll(&self.search_metadata_rx)
        } else {
            Received::Empty
        }
    }

    /// Takes what the queue of search results gave, for results that lie in
    /// a file of `input_file_size` bytes ending in `last_byte`, and says
    /// whether there are search results to read from.
    pub fn install_search_grabber(
        &mut self,
        fresh: Received<SearchHandoff>,
        input_file_size: u64,
        last_byte: u8,
    ) -> (r: Result<bool, ComputationError>)
        requires
            old(self).wf(),
        ensures
            final(self).wf(),
            final(self)@.id == old(self)@.id,
            final(self)@.running == old(self)@.running,
            final(self).same_queues(old(self)),
            final(self)@.content_grabber == old(self)@.content_grabber,
            search_installed(
                old(self)@.search_grabber,
                fresh,
                input_file_size,
                last_byte,
                final(self)@.search_grabber,
                r,
            ),
            is_ready(r) ==> table_of_grabber(final(self)@.search_grabber) is Some,
    {
        if self.search_grabber.is_none() {
            match fresh {
                Received::Item(handoff) => {
                    let mut grabber: Grabber = match Grabber::lazy(
                        handoff.file_path.as_str(),
                        "search_results",
                        input_file_size,
                        last_byte,
                    ) {
                        Ok(grabber) => grabber,
                        Err(e) => {
                            let text: String = e.to_text();
                            return Err(
                                ComputationError::Protocol(
                                    join("Fail to create search grabber. Error: ", text.as_str()),
                                ),
                            );
                        },
                    };
                    match grabber.inject_metadata(handoff.metadata) {
                        Ok(()) => {},
                        Err(e) => {
                            let text: String = e.to_text();
                            return Err(
                                ComputationError::Protocol(
                                    join(
                                        "Fail to inject metadata into search grabber. Error: ",
                                        text.as_str(),
                                    ),
                                ),
                            );
                        },
                    }
                    self.search_grabber = Some(grabber);
                },
                Received::Empty => {
                    return Ok(false);
                },
                Received::Disconnected => {
                    return Err(
                        ComputationError::Protocol(
                            "Search metadata channel was disconnected".to_owned(),
                        ),
                    );
                },
            }
        }
        match &self.search_grabber {
            Some(grabber) => if grabber.metadata().is_some() {
                Ok(true)
            } else {
                Err(ComputationError::Protocol("No metadata available for grabber".to_owned()))
            },
            None => Err(
                ComputationError::Protocol("Search grabber channel was disconnected".to_owned()),
            ),
        }
    }

    /// Looks for new search results and says whether there are search
    /// results to read from.  Where results have arrived, `stat` is asked for
    /// the size and the last byte of the file that they lie in.
    pub fn get_search_grabber<S: Fn(&str) -> Result<(u64, u8), String>>(&mut self, stat: &S) -> (r:
        Result<bool, ComputationError>)
        requires
            old(self).wf(),
            can_stat(*stat),
        ensures
            final(self).wf(),
            final(self)@.id == old(self)@.id,
            final(self)@.running == old(self)@.running,
            final(self).same_queues(old(self)),
            final(self)@.content_grabber == old(self)@.content_grabber,
            search_polled(old(self)@.search_grabber, final(self)@.search_grabber, r),
            is_ready(r) ==> table_of_grabber(final(self)@.search_grabber) is Some,
    {
        let fresh: Received<SearchHandoff> = self.poll_search_metadata();
        let ghost seen = fresh;
        let (input_file_size, last_byte): (u64, u8) = match &fresh {
            Received::Item(handoff) => {
                let path: &str = handoff.file_path.as_str();
                match stat(path) {
                    Ok(facts) => facts,
                    Err(reason) => {
                        let text: String = GrabError::Config(reason).to_text();
                        let r = Err(
                            ComputationError::Protocol(
                                join("Fail to create search grabber. Error: ", text.as_str()),
                            ),
                        );
                        assert(text@ == config_text(reason@));
                        assert(facts_failed(old(self)@.search_grabber, self@.search_grabber, r));
                        return r;
                    },
                }
            },
            _ => (0, 0),
        };
        let r = self.install_search_grabber(fresh, input_file_size, last_byte);
        assert(search_installed(
            old(self)@.search_grabber,
            seen,
            input_file_size,
            last_byte,
            self@.search_grabber,
            r,
        ));
        r
    }

    /// The number of search results that the session holds, given whether
    /// its search grabber is ready: one less than the lines that the scan of
    /// the results file counted, and `0` while there are no results.
    pub fn search_len(&self, ready: bool) -> (len: i64)
        ensures
            len == match table_of_grabber(self@.search_grabber) {
                Some(md) => if ready {
                    (len_as_i64(md.line_count) - 1) as i64
                } else {
                    0
                },
                None => 0,
            },
    {
        if !ready {
            return 0;
        }
        match &self.search_grabber {
            Some(grabber) => match grabber.metadata() {
                Some(md) => to_host_len(md.line_count) - 1,
                None => 0,
            },
            None => 0,
        }
    }

    /// The number of lines of the assigned file.
    pub fn get_stream_len(&mut self) -> (r: Result<i64, ComputationError>)
        requires
            old(self).wf(),
        ensures
            final(self).wf(),
            final(self)@.id == old(self)@.id,
            final(self)@.running == old(self)@.running,
            final(self).same_queues(old(self)),
            final(self)@.search_grabber == old(self)@.search_grabber,
            exists|polled: Result<(), ComputationError>| #[trigger]
                content_polled(old(self)@.content_grabber, final(self)@.content_grabber, polled)
                    && stream_len_after(final(self)@.content_grabber, polled, r),
    {
        let polled: Result<(), ComputationError> = self.get_content_grabber();
        let r: Result<i64, ComputationError> = match &polled {
            Err(e) => Err(e.clone_error()),
            Ok(_) => match &self.content_grabber {
                Some(grabber) => match grabber.metadata() {
                    Some(md) => Ok(to_host_len(md.line_count)),
                    None => Err(ComputationError::Protocol("Cannot happen".to_owned())),
                },
                None => Err(ComputationError::Protocol("Cannot happen".to_owned())),
            },
        };
        assert(content_polled(old(self)@.content_grabber, self@.content_grabber, polled)
            && stream_len_after(self@.content_grabber, polled, r));
        r
    }

    /// The number of search results.
    pub fn get_search_len<S: Fn(&str) -> Result<(u64, u8), String>>(&mut self, stat: &S) -> (r:
        Result<i64, ComputationError>)
        requires
            old(self).wf(),
            can_stat(*stat),
        ensures
            final(self).wf(),
            final(self)@.id == old(self)@.id,
            final(self)@.running == old(self)@.running,
            final(self).same_queues(old(self)),
            final(self)@.content_grabber == old(self)@.content_grabber,
            exists|searched: Result<bool, ComputationError>| #[trigger]
                search_polled(old(self)@.search_grabber, final(self)@.search_grabber, searched)
                    && search_len_after(final(self)@.search_grabber, searched, r),
    {
        let searched: Result<bool, ComputationError> = self.get_search_grabber(stat);
        let r: Result<i64, ComputationError> = match &searched {
            Err(e) => Err(e.clone_error()),
            Ok(ready) => Ok(self.search_len(*ready)),
        };
        assert(search_polled(old(self)@.search_grabber, self@.search_grabber, searched)
            && search_len_after(self@.search_grabber, searched, r));
        r
    }

    /// The lines `start_line_index`, `start_line_index + 1`, ... of the
    /// assigned file, `number_of_lines` of them, read through `read`.
    pub fn grab<R: Fn(&str, u64, u64) -> Result<Vec<u8>, String>>(
        &mut self,
        start_line_index: u64,
        number_of_lines: u64,
        read: &R,
    ) -> (r: Result<GrabbedContent, ComputationError>)
        requires
            old(self).wf(),
            callable(*read),
        ensures
            final(self).wf(),
            final(self)@.id == old(self)@.id,
            final(self)@.running == old(self)@.running,
            final(self).same_queues(old(self)),
            final(self)@.search_grabber == old(self)@.search_grabber,
            exists|polled: Result<(), ComputationError>| #[trigger]
                content_polled(old(self)@.content_grabber, final(self)@.content_grabber, polled)
                    && grab_after(
                    final(self)@.content_grabber,
                    polled,
                    *read,
                    page_range(start_line_index, number_of_lines),
                    r,
                ),
    {
        let polled: Result<(), ComputationError> = self.get_content_grabber();
        let range: LineRange = page(start_line_index, number_of_lines);
        let r: Result<GrabbedContent, ComputationError> = match &polled {
            Err(e) => Err(e.clone_error()),
            Ok(_) => match &self.content_grabber {
                Some(grabber) => read_lines(grabber, &range, read),
                None => Err(ComputationError::Protocol("Cannot happen".to_owned())),
            },
        };
        assert(content_polled(old(self)@.content_grabber, self@.content_grabber, polled)
            && grab_after(self@.content_grabber, polled, *read, range, r));
        r
    }

    /// The lines of the assigned file that the search results number
    /// `start_line_index`, `start_line_index + 1`, ... name, `number_of_lines`
    /// results at most.  Each line carries its place in the file as `pos` and
    /// its place among the results as `row`.  Both files are read through
    /// `read`; `stat` is asked for the facts of a results file that has just
    /// arrived.
    pub fn grab_search<
        S: Fn(&str) -> Result<(u64, u8), String>,
        R: Fn(&str, u64, u64) -> Result<Vec<u8>, String>,
    >(&mut self, start_line_index: u64, number_of_lines: u64, stat: &S, read: &R) -> (r: Result<
        GrabbedContent,
        ComputationError,
    >)
        requires
            old(self).wf(),
            can_stat(*stat),
            callable(*read),
        ensures
            final(self).wf(),
            final(self)@.id == old(self)@.id,
            final(self)@.running == old(self)@.running,
            final(self).same_queues(old(self)),
            kept_or_polled(old(self)@.content_grabber, final(self)@.content_grabber),
            exists|searched: Result<bool, ComputationError>| #[trigger]
                search_polled(old(self)@.search_grabber, final(self)@.search_grabber, searched)
                    && grab_search_came(
                    *read,
                    old(self)@.content_grabber,
                    final(self)@.content_grabber,
                    final(self)@.search_grabber,
                    searched,
                    start_line_index,
                    number_of_lines,
                    views_of(r),
                ) && grab_search_gave(
                    *read,
                    old(self)@.content_grabber,
                    final(self)@.content_grabber,
                    final(self)@.search_grabber,
                    searched,
                    start_line_index,
                    number_of_lines,
                    r,
                ),
    {
        let searched: Result<bool, ComputationError> = self.get_search_grabber(stat);
        let ghost search_after = self@.search_grabber;
        let ghost content_before = self@.content_grabber;
        let ready: bool = match &searched {
            Err(e) => {
                return Err(e.clone_error());
            },
            Ok(ready) => *ready,
        };
        if !ready {
            let rows = no_rows();
            return Ok(rows);
        }
        let listed: Result<Vec<PositionRun>, ComputationError> = match &self.search_grabber {
            Some(search) => read_search_page(search, start_line_index, number_of_lines, read),
            None => Err(ComputationError::Protocol("Cannot happen".to_owned())),
        };
        let ghost search = search_after->0;
        let ghost page = runs_of(listed);
        assert(page_came(search, *read, start_line_index, number_of_lines, page));
        let runs: Vec<PositionRun> = match listed {
            Err(e) => {
                let r = Err(e);
                proof {
                    assert(is_failed_read(r, *read, search@.path) == is_failed_read(
                        Err::<Vec<PositionRun>, ComputationError>(e),
                        *read,
                        search@.path,
                    ));
                }
                return r;
            },
            Ok(runs) => runs,
        };
        assert(!is_failed_read(
            Ok::<Vec<PositionRun>, ComputationError>(runs),
            *read,
            search@.path,
        ));
        if runs.len() == 0 {
            let rows = no_rows();
            return Ok(rows);
        }
        let polled: Result<(), ComputationError> = self.get_content_grabber();
        let r: Result<GrabbedContent, ComputationError> = match &polled {
            Err(e) => Err(e.clone_error()),
            Ok(_) => match &self.content_grabber {
                Some(content) => read_rows(content, &runs, start_line_index, read),
                None => Err(ComputationError::Protocol("Cannot happen".to_owned())),
            },
        };
        proof {
            let content_after = self@.content_grabber;
            assert(content_polled(content_before, content_after, polled));
            assert(rows_gave(
                *read,
                content_before,
                content_after,
                runs@,
                start_line_index,
                r,
            ));
            assert(content_polled(content_before, content_after, polled) && match polled {
                Err(e) => views_of(r) == Err::<Seq<ElementView>, ErrorView>(e@),
                Ok(_) => content_after matches Some(content) && rows_came(
                    content,
                    *read,
                    runs@,
                    start_line_index as int,
                    views_of(r),
                ),
            });
            assert forall|search_file: Seq<u8>| #[trigger]
                reads(*read, search@.path, search_file) implies search_page_runs(
                search,
                search_file,
                start_line_index,
                number_of_lines,
            ) == Ok::<Seq<PositionRun>, ErrorView>(runs@) by {
                assert(page_gave(
                    search,
                    search_file,
                    start_line_index,
                    number_of_lines,
                    Ok::<Vec<PositionRun>, ComputationError>(runs),
                ));
            }
        }
        r
    }
}

/// An answer without rows.
pub fn no_rows() -> (content: GrabbedContent)
    ensures
        content@ == Seq::<ElementView>::empty(),
{
    let content = GrabbedContent { grabbed_elements: Vec::new() };
    assert(content@ =~= Seq::<ElementView>::empty());
    content
}

} // verus!
