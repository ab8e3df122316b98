//! The grabber: a file, its slot table, and the read path that serves ranges
//! of lines from the slots they touch.

use crate::lines::{clip, extract_lines, is_break, is_line_break, line_views, split_lines};
use crate::scan::{
    line_total, line_total_fits, table_of, ComputationResult, DEFAULT_SLOT_SIZE,
};
use crossbeam_channel::Receiver;
use crate::slots::{
    contiguous, lemma_table_ascending, lemma_totals_are_sums, sum_line_counts, ByteRange,
    GrabMetadata, LineRange, Slot,
};
use crate::text::{decimal_string, decimal_text, decode_lossy, join3, text_of_bytes};
use vstd::string::StringExecFns;
use vstd::prelude::*;

verus! {

/// Why a grabber could not do what it was asked.
#[derive(Debug, Clone, PartialEq)]
pub enum GrabError {
    /// The grabber or its input is in no state to work with.
    Config(String),
    /// A channel failed.
    Communication(String),
    /// Reading the file failed; the text says how.
    IoOperation(String),
    /// The range names no line.
    InvalidRange(LineRange),
    /// The job was stopped.
    Interrupted,
}

/// A `Config` error with the message `m`, in words.
pub open spec fn config_text(m: Seq<char>) -> Seq<char> {
    "Configuration error ("@ + m + ")"@
}

/// An `IoOperation` error with the message `m`, in words.
pub open spec fn io_text(m: Seq<char>) -> Seq<char> {
    "IO error while grabbing: ("@ + m + ")"@
}

impl GrabError {
    /// The error in words.
    pub open spec fn text(&self) -> Seq<char> {
        match self {
            GrabError::Config(m) => config_text(m@),
            GrabError::Communication(m) => "Channel-Communication error ("@ + m@ + ")"@,
            GrabError::IoOperation(m) => io_text(m@),
            GrabError::InvalidRange(range) => "Invalid range: (LineRange { start: "@
                + decimal_text(range.start as nat) + ", end: "@ + decimal_text(range.end as nat)
                + " })"@,
            GrabError::Interrupted => "Grabber interrupted"@,
        }
    }

    /// The error in words.
    pub fn to_text(&self) -> (s: String)
        ensures
            s@ == self.text(),
    {
        match self {
            GrabError::Config(m) => join3("Configuration error (", m.as_str(), ")"),
            GrabError::Communication(m) => join3(
                "Channel-Communication error (",
                m.as_str(),
                ")",
            ),
            GrabError::IoOperation(m) => join3("IO error while grabbing: (", m.as_str(), ")"),
            GrabError::InvalidRange(range) => {
                let start: String = decimal_string(range.start);
                let end: String = decimal_string(range.end);
                let mut s: String = join3(
                    "Invalid range: (LineRange { start: ",
                    start.as_str(),
                    ", end: ",
                );
                s.append(end.as_str());
                s.append(" })");
                s
            },
            GrabError::Interrupted => "Grabber interrupted".to_owned(),
        }
    }
}

/// The result is the error `Config` with the message `text`.
pub open spec fn fails_with_config<T>(r: Result<T, GrabError>, text: Seq<char>) -> bool {
    r matches Err(GrabError::Config(m)) && m@ == text
}

/// One line of a file, as handed to the caller.
#[derive(Debug, Clone, PartialEq)]
pub struct GrabbedElement {
    pub source_id: String,
    pub content: String,
    /// Position in the set that was asked for.
    pub row: Option<u64>,
    /// Line number in the file that the line was read from.
    pub pos: Option<u64>,
}

/// What a grabbed line is, as plain values.
pub struct ElementView {
    pub source_id: Seq<char>,
    pub content: Seq<char>,
    pub row: Option<u64>,
    pub pos: Option<u64>,
}

impl View for GrabbedElement {
    type V = ElementView;

    open spec fn view(&self) -> ElementView {
        ElementView {
            source_id: self.source_id@,
            content: self.content@,
            row: self.row,
            pos: self.pos,
        }
    }
}

/// The answer to a range read.
#[derive(Debug, Clone, PartialEq)]
pub struct GrabbedContent {
    pub grabbed_elements: Vec<GrabbedElement>,
}

impl View for GrabbedContent {
    type V = Seq<ElementView>;

    open spec fn view(&self) -> Seq<ElementView> {
        Seq::new(self.grabbed_elements@.len(), |i: int| self.grabbed_elements@[i]@)
    }
}

/// The elements that stand for `pieces`: each carries the source's id and the
/// piece as text, and neither row nor position.
pub open spec fn plain_elements(source_id: Seq<char>, pieces: Seq<Seq<u8>>) -> Seq<ElementView> {
    Seq::new(
        pieces.len(),
        |i: int|
            ElementView { source_id, content: text_of_bytes(pieces[i]), row: None, pos: None },
    )
}

/// What has to be read for a range of lines, and which of the lines read
/// belong to the range.
#[derive(Debug, Clone, Copy, PartialEq, Eq, Structural)]
pub struct ReadPlan {
    /// The bytes to read.
    pub bytes: ByteRange,
    /// How many lines at the head of these bytes come before the range.
    pub to_skip: u64,
    /// How many lines the range asks for.
    pub to_take: u64,
}

impl ReadPlan {
    /// The lines that the plan picks from the bytes it asked for.
    pub open spec fn lines_of(&self, window: Seq<u8>) -> Seq<Seq<u8>> {
        clip(split_lines(window), self.to_skip as nat, self.to_take as nat)
    }
}

impl GrabMetadata {
    /// The plan for `range`: read from where the slot of its first line
    /// begins to where the slot of its last line ends.  There is none where
    /// either line lies in no slot.
    pub open spec fn read_plan(&self, range: LineRange) -> Option<ReadPlan> {
        match (self.slot_of_line(range.start), self.slot_of_line((range.end - 1) as u64)) {
            (Some(first), Some(last)) => Some(
                ReadPlan {
                    bytes: ByteRange { start: first.bytes.start, end: last.bytes.end },
                    to_skip: (range.start - first.lines.start) as u64,
                    to_take: (range.end - range.start) as u64,
                },
            ),
            _ => None,
        }
    }

    /// The lines that a read of `range` yields from `file`: none where there
    /// is no plan.  `None` where the plan asks for bytes that the file does not
    /// have.
    pub open spec fn lines_in(&self, file: Seq<u8>, range: LineRange) -> Option<Seq<Seq<u8>>> {
        match self.read_plan(range) {
            None => Some(Seq::empty()),
            Some(plan) => if plan.bytes.end <= file.len() {
                Some(plan.lines_of(file.subrange(plan.bytes.start as int, plan.bytes.end as int)))
            } else {
                None
            },
        }
    }

    /// The slot of a later line ends no earlier than the slot of an earlier
    /// line begins.
    pub proof fn lemma_plan_spans(&self, range: LineRange)
        requires
            self.wf(),
            range.wf(),
        ensures
            self.read_plan(range) matches Some(plan) ==> plan.bytes.start < plan.bytes.end,
    {
        let last_line = (range.end - 1) as u64;
        if self.read_plan(range) is Some {
            let a = choose|k: int| self.holds_line(k, range.start);
            let b = choose|k: int| self.holds_line(k, last_line);
            assert(self.slots@[a].wf());
            assert(self.slots@[b].wf());
            if b < a {
                lemma_table_ascending(self.slots@, b, a);
            } else {
                lemma_table_ascending(self.slots@, a, b);
            }
        }
    }
}

/// `read` reads from a file at `path` that holds `file`: whenever it hands
/// out bytes for the span from `from` to `to`, the span lies in the file and
/// the bytes are those of the file there.  It may fail on any span.
pub open spec fn reads<R: Fn(&str, u64, u64) -> Result<Vec<u8>, String>>(
    read: R,
    path: Seq<char>,
    file: Seq<u8>,
) -> bool {
    forall|p: &str, from: u64, to: u64, got: Result<Vec<u8>, String>|
        p@ == path && #[trigger] call_ensures(read, (p, from, to), got) ==> (got matches Ok(
            window,
        ) ==> from <= to <= file.len() && window@ == file.subrange(from as int, to as int))
}

/// `read` can be asked for any span of any file.
pub open spec fn callable<R: Fn(&str, u64, u64) -> Result<Vec<u8>, String>>(read: R) -> bool {
    forall|p: &str, from: u64, to: u64| #[trigger] call_requires(read, (p, from, to))
}

/// The result is the failure of a read.
pub open spec fn is_read_failure<T>(r: Result<T, GrabError>) -> bool {
    r matches Err(GrabError::IoOperation(_))
}

/// `read` was asked for a span of the file at `path` and refused, giving
/// `reason`.
pub open spec fn refused<R: Fn(&str, u64, u64) -> Result<Vec<u8>, String>>(
    read: R,
    path: Seq<char>,
    reason: Seq<char>,
) -> bool {
    exists|p: &str, from: u64, to: u64, text: String|
        p@ == path && text@ == reason && #[trigger] call_ensures(
            read,
            (p, from, to),
            Err::<Vec<u8>, String>(text),
        )
}

/// A file with its slot table.
#[derive(Debug)]
pub struct Grabber {
    source_id: String,
    path: String,
    metadata: Option<GrabMetadata>,
    input_file_size: u64,
    last_line_empty: bool,
}

/// What a grabber holds, as plain values.
pub struct GrabberView {
    pub source_id: Seq<char>,
    pub path: Seq<char>,
    pub metadata: Option<GrabMetadata>,
    pub input_file_size: u64,
    pub last_line_empty: bool,
}

impl View for Grabber {
    type V = GrabberView;

    closed spec fn view(&self) -> GrabberView {
        GrabberView {
            source_id: self.source_id@,
            path: self.path@,
            metadata: self.metadata,
            input_file_size: self.input_file_size,
            last_line_empty: self.last_line_empty,
        }
    }
}

impl Grabber {
    /// The slot table of the file, once there is one.
    pub open spec fn table(&self) -> Option<GrabMetadata> {
        self@.metadata
    }

    /// The slot table, where there is one, is well formed.
    pub open spec fn wf(&self) -> bool {
        self.table() matches Some(md) ==> md.wf()
    }

    /// The two grabbers stand for the same file under the same id.
    pub open spec fn same_file(&self, other: &Grabber) -> bool {
        &&& self@.source_id == other@.source_id
        &&& self@.path == other@.path
        &&& self@.input_file_size == other@.input_file_size
        &&& self@.last_line_empty == other@.last_line_empty
    }

    /// The grabber is the one for `path` and `source_id`, a file of
    /// `input_file_size` bytes that ends in `last_byte`.
    pub open spec fn stands_for(
        &self,
        path: Seq<char>,
        source_id: Seq<char>,
        input_file_size: u64,
        last_byte: u8,
    ) -> bool {
        &&& self@.source_id == source_id
        &&& self@.path == path
        &&& self@.input_file_size == input_file_size
        &&& self@.last_line_empty == is_break(last_byte)
    }

    /// The slot table, once there is one.
    pub fn metadata(&self) -> (r: Option<&GrabMetadata>)
        ensures
            match r {
                Some(md) => self.table() == Some(*md),
                None => self.table() is None,
            },
    {
        self.metadata.as_ref()
    }

    /// The id under which the lines of the file are handed out.
    pub fn source_id(&self) -> (r: &String)
        ensures
            r@ == self@.source_id,
    {
        &self.source_id
    }

    /// Where the file lies.
    pub fn path(&self) -> (r: &String)
        ensures
            r@ == self@.path,
    {
        &self.path
    }

    /// The size of the file in bytes.
    pub fn input_file_size(&self) -> (r: u64)
        ensures
            r == self@.input_file_size,
    {
        self.input_file_size
    }

    /// Whether the file ends in a line break.
    pub fn last_line_empty(&self) -> (r: bool)
        ensures
            r == self@.last_line_empty,
    {
        self.last_line_empty
    }

    /// A grabber for the file at `path` that has no slot table yet.  The file
    /// must not be empty; `last_byte` is its last byte.
    pub fn lazy(path: &str, source_id: &str, input_file_size: u64, last_byte: u8) -> (r: Result<
        Grabber,
        GrabError,
    >)
        ensures
            input_file_size == 0 ==> fails_with_config(r, "Cannot grab empty file"@),
            input_file_size > 0 ==> (r matches Ok(g) && g.table() is None && g.wf()
                && g.stands_for(path@, source_id@, input_file_size, last_byte)),
    {
        if input_file_size == 0 {
            return Err(GrabError::Config("Cannot grab empty file".to_owned()));
        }
        Ok(
            Grabber {
                source_id: source_id.to_owned(),
                path: path.to_owned(),
                metadata: None,
                input_file_size,
                last_line_empty: is_line_break(last_byte),
            },
        )
    }

    /// A grabber for the file at `path` with the slot table that a scan of
    /// the file gave.  The file must not be empty, the scan must have run to
    /// its end, and its table must be well formed.
    pub fn new(
        path: &str,
        source_id: &str,
        input_file_size: u64,
        last_byte: u8,
        scanned: ComputationResult<GrabMetadata>,
    ) -> (r: Result<Grabber, GrabError>)
        ensures
            input_file_size == 0 ==> fails_with_config(r, "Cannot grab empty file"@),
            input_file_size > 0 ==> match scanned {
                ComputationResult::Stopped => r == Err::<Grabber, GrabError>(
                    GrabError::Interrupted,
                ),
                ComputationResult::Item(md) => if md.wf() {
                    r matches Ok(g) && g.table() == Some(md) && g.wf() && g.stands_for(
                        path@,
                        source_id@,
                        input_file_size,
                        last_byte,
                    )
                } else {
                    fails_with_config(r, "Malformed metadata"@)
                },
            },
    {
        if input_file_size == 0 {
            return Err(GrabError::Config("Cannot grab empty file".to_owned()));
        }
        match scanned {
            ComputationResult::Item(md) => {
                if !md.is_well_formed() {
                    return Err(GrabError::Config("Malformed metadata".to_owned()));
                }
                Ok(
                    Grabber {
                        source_id: source_id.to_owned(),
                        path: path.to_owned(),
                        metadata: Some(md),
                        input_file_size,
                        last_line_empty: is_line_break(last_byte),
                    },
                )
            },
            ComputationResult::Stopped => Err(GrabError::Interrupted),
        }
    }

    /// Whether the grabber still lacks its slot table, so that a scan of the
    /// file is called for.
    pub fn needs_metadata(&self) -> (r: bool)
        ensures
            r == (self.table() is None),
    {
        self.metadata.is_none()
    }

    /// Takes the outcome of a scan.  A table is kept only where the grabber
    /// had none and the scan ran to its end; a table that is not well formed
    /// is refused.
    pub fn create_metadata(&mut self, scanned: ComputationResult<GrabMetadata>) -> (r: Result<
        (),
        GrabError,
    >)
        requires
            old(self).wf(),
        ensures
            final(self).wf(),
            final(self).same_file(old(self)),
            match (old(self).table(), scanned) {
                (None, ComputationResult::Item(md)) => if md.wf() {
                    r is Ok && final(self).table() == Some(md)
                } else {
                    fails_with_config(r, "Malformed metadata"@) && final(self).table() is None
                },
                _ => r is Ok && final(self).table() == old(self).table(),
            },
    {
        if self.metadata.is_none() {
            if let ComputationResult::Item(md) = scanned {
                if !md.is_well_formed() {
                    return Err(GrabError::Config("Malformed metadata".to_owned()));
                }
                self.metadata = Some(md);
            }
        }
        Ok(())
    }

    /// Scans a file that is held in memory, in buffers of the default size.
    /// The stop signal is polled before each buffer.  A file with more lines
    /// than a `usize` can count is refused.  In a table that comes back, each
    /// slot begins where the one before it ends, in bytes and in lines, and the
    /// line count is the sum of what the slots count.
    pub fn create_metadata_for_file(content: &[u8], shutdown_receiver: Option<&Receiver<()>>) -> (r:
        Result<ComputationResult<GrabMetadata>, GrabError>)
        ensures
            line_total(content@, DEFAULT_SLOT_SIZE as nat) > usize::MAX ==> fails_with_config(
                r,
                "Too many lines"@,
            ),
            line_total(content@, DEFAULT_SLOT_SIZE as nat) <= usize::MAX ==> r is Ok,
            shutdown_receiver is None && r is Ok ==> r->Ok_0 is Item,
            r matches Ok(ComputationResult::Item(md)) ==> md.wf() && md.slots@ == table_of(
                content@,
                DEFAULT_SLOT_SIZE as nat,
            ) && md.line_count == line_total(content@, DEFAULT_SLOT_SIZE as nat),
            r matches Ok(ComputationResult::Item(md)) ==> contiguous(md.slots@) && md.line_count
                == sum_line_counts(md.slots@),
    {
        if !line_total_fits(content, DEFAULT_SLOT_SIZE) {
            return Err(GrabError::Config("Too many lines".to_owned()));
        }
        let scanned = GrabMetadata::scan_content(content, DEFAULT_SLOT_SIZE, shutdown_receiver);
        proof {
            if scanned is Item {
                lemma_totals_are_sums(scanned->Item_0.slots@);
            }
        }
        Ok(scanned)
    }

    /// Puts a slot table in place, whether or not there was one.  A table
    /// that is not well formed is refused.
    pub fn inject_metadata(&mut self, metadata: GrabMetadata) -> (r: Result<(), GrabError>)
        requires
            old(self).wf(),
        ensures
            final(self).wf(),
            final(self).same_file(old(self)),
            metadata.wf() ==> r is Ok && final(self).table() == Some(metadata),
            !metadata.wf() ==> fails_with_config(r, "Malformed metadata"@) && final(self).table()
                == old(self).table(),
    {
        if !metadata.is_well_formed() {
            return Err(GrabError::Config("Malformed metadata".to_owned()));
        }
        self.metadata = Some(metadata);
        Ok(())
    }

    /// Takes a slot table that was stored earlier.  A table that is not well
    /// formed is refused.
    pub fn load_metadata(self, stored: GrabMetadata) -> (r: Result<Grabber, GrabError>)
        ensures
            stored.wf() ==> (r matches Ok(g) && g.same_file(&self) && g.table() == Some(stored)
                && g.wf()),
            !stored.wf() ==> fails_with_config(r, "Could not deserialize metadata"@),
    {
        if !stored.is_well_formed() {
            return Err(GrabError::Config("Could not deserialize metadata".to_owned()));
        }
        let mut grabber = self;
        grabber.metadata = Some(stored);
        Ok(grabber)
    }

    /// The number of lines of the file, once the slot table is there.
    pub fn log_entry_count(&self) -> (r: Option<usize>)
        ensures
            r == match self.table() {
                Some(md) => Some(md.line_count),
                None => None,
            },
    {
        match &self.metadata {
            Some(md) => Some(md.line_count),
            None => None,
        }
    }

    /// The slot that holds `line_index`: none without a slot table, and none
    /// for a line that the table does not reach.
    pub fn identify_slot(&self, line_index: u64) -> (r: Option<Slot>)
        requires
            self.wf(),
        ensures
            r == match self.table() {
                Some(md) => md.slot_of_line(line_index),
                None => None,
            },
            r is Some <==> (self.table() matches Some(md) && line_index < md.line_count),
            r matches Some(slot) ==> slot.lines.contains(line_index),
    {
        match &self.metadata {
            Some(md) => md.identify_slot(line_index),
            None => None,
        }
    }

    /// Decides what to read for `line_range`.
    pub fn plan_read(&self, line_range: &LineRange) -> (r: Result<Option<ReadPlan>, GrabError>)
        requires
            self.wf(),
        ensures
            !line_range.wf() ==> r == Err::<Option<ReadPlan>, GrabError>(
                GrabError::InvalidRange(*line_range),
            ),
            line_range.wf() && self.table() is None ==> fails_with_config(
                r,
                "No metadata available"@,
            ),
            line_range.wf() ==> (self.table() matches Some(md) ==> r == Ok::<
                Option<ReadPlan>,
                GrabError,
            >(md.read_plan(*line_range))),
            r matches Ok(Some(plan)) ==> plan.bytes.start < plan.bytes.end,
    {
        if line_range.end <= line_range.start {
            return Err(GrabError::InvalidRange(*line_range));
        }
        let md: &GrabMetadata = match &self.metadata {
            Some(md) => md,
            None => {
                return Err(GrabError::Config("No metadata available".to_owned()));
            },
        };
        proof {
            md.lemma_plan_spans(*line_range);
        }
        let maybe_start_slot: Option<Slot> = md.identify_slot(line_range.start);
        let maybe_end_slot: Option<Slot> = md.identify_slot(line_range.end - 1);
        match (maybe_start_slot, maybe_end_slot) {
            (Some(start_slot), Some(end_slot)) => Ok(
                Some(
                    ReadPlan {
                        bytes: ByteRange::new(start_slot.bytes.start, end_slot.bytes.end),
                        to_skip: line_range.start - start_slot.lines.start,
                        to_take: line_range.end - line_range.start,
                    },
                ),
            ),
            _ => Ok(None),
        }
    }

    /// Picks the lines of a plan out of the bytes that were read for it.
    pub fn entries_in_window(&self, plan: &ReadPlan, window: &[u8]) -> (content: GrabbedContent)
        ensures
            content@ == plain_elements(self@.source_id, plan.lines_of(window@)),
    {
        let lines: Vec<Vec<u8>> = extract_lines(window, plan.to_skip, plan.to_take);
        let mut grabbed_elements: Vec<GrabbedElement> = Vec::new();
        let mut i: usize = 0;
        let ghost pieces = plan.lines_of(window@);
        while i < lines.len()
            invariant
                0 <= i <= lines@.len(),
                line_views(lines@) == pieces,
                grabbed_elements@.len() == i,
                forall|k: int|
                    0 <= k < i ==> (#[trigger] grabbed_elements@[k])@ == plain_elements(
                        self.source_id@,
                        pieces,
                    )[k],
            decreases lines@.len() - i,
        {
            assert(line_views(lines@)[i as int] == lines@[i as int]@);
            let element = GrabbedElement {
                source_id: self.source_id.clone(),
                content: decode_lossy(lines[i].as_slice()),
                row: None,
                pos: None,
            };
            grabbed_elements.push(element);
            i = i + 1;
        }
        let content = GrabbedContent { grabbed_elements };
        assert(content@ =~= plain_elements(self.source_id@, pieces));
        content
    }

    /// What a read of `line_range` from `file` gives, where the range names a
    /// line and the grabber has its table `md`: the lines of the range, or the
    /// failure of a read past the end of the file.
    pub open spec fn read_gives(
        &self,
        md: GrabMetadata,
        file: Seq<u8>,
        line_range: LineRange,
        r: Result<GrabbedContent, GrabError>,
    ) -> bool {
        match md.lines_in(file, line_range) {
            Some(lines) => r matches Ok(content) && content@ == plain_elements(
                self@.source_id,
                lines,
            ),
            None => r matches Err(GrabError::IoOperation(m)) && m@
                == "failed to fill whole buffer"@,
        }
    }

    /// What a read of `range` from `file` comes to: the lines as elements, or
    /// the failure in words.
    pub open spec fn read_outcome(&self, file: Seq<u8>, range: LineRange) -> Result<
        Seq<ElementView>,
        Seq<char>,
    > {
        if !range.wf() {
            Err(GrabError::InvalidRange(range).text())
        } else {
            match self.table() {
                None => Err(config_text("No metadata available"@)),
                Some(md) => match md.lines_in(file, range) {
                    Some(lines) => Ok(plain_elements(self@.source_id, lines)),
                    None => Err(io_text("failed to fill whole buffer"@)),
                },
            }
        }
    }

    /// The result is what a read of `range` from `file` comes to.
    pub open spec fn read_gave(
        &self,
        file: Seq<u8>,
        range: LineRange,
        r: Result<GrabbedContent, GrabError>,
    ) -> bool {
        match self.read_outcome(file, range) {
            Ok(found) => r matches Ok(content) && content@ == found,
            Err(text) => r matches Err(e) && e.text() == text,
        }
    }

    /// `read` was asked for the bytes of `plan`, and the result is what came
    /// of its answer: the lines that the plan picks from the bytes it gave, or
    /// the failure of the read with the reason it gave.
    pub open spec fn window_gave<R: Fn(&str, u64, u64) -> Result<Vec<u8>, String>>(
        &self,
        read: R,
        plan: ReadPlan,
        r: Result<GrabbedContent, GrabError>,
    ) -> bool {
        exists|p: &str, got: Result<Vec<u8>, String>|
            p@ == self@.path && #[trigger] call_ensures(
                read,
                (p, plan.bytes.start, plan.bytes.end),
                got,
            ) && match got {
                Ok(window) => r matches Ok(content) && content@ == plain_elements(
                    self@.source_id,
                    plan.lines_of(window@),
                ),
                Err(text) => r matches Err(GrabError::IoOperation(reason)) && reason@ == text@,
            }
    }

    /// The lines of `line_range`, read from the grabber's file through
    /// `read`, which is asked once, for the bytes of the slots that the range
    /// touches, and not at all where there is nothing to read.
    ///
    /// A range that names no line is refused, and so is a grabber without a
    /// slot table.  Where `read` fails, the read fails with what it said.
    /// Otherwise the result is what a read of the range from the file comes
    /// to.
    pub fn get_entries_from<R: Fn(&str, u64, u64) -> Result<Vec<u8>, String>>(
        &self,
        line_range: &LineRange,
        read: &R,
    ) -> (r: Result<GrabbedContent, GrabError>)
        requires
            self.wf(),
            callable(*read),
        ensures
            !line_range.wf() ==> r == Err::<GrabbedContent, GrabError>(
                GrabError::InvalidRange(*line_range),
            ),
            line_range.wf() && self.table() is None ==> fails_with_config(
                r,
                "No metadata available"@,
            ),
            line_range.wf() ==> (self.table() matches Some(md) ==> match md.read_plan(
                *line_range,
            ) {
                None => r matches Ok(content) && content@.len() == 0,
                Some(plan) => self.window_gave(*read, plan, r),
            }),
            r matches Ok(content) ==> content@.len() <= line_range.spec_len(),
            r matches Err(GrabError::IoOperation(reason)) ==> refused(
                *read,
                self@.path,
                reason@,
            ),
            forall|file: Seq<u8>| #[trigger]
                reads(*read, self@.path, file) ==> is_read_failure(r) || self.read_gave(
                    file,
                    *line_range,
                    r,
                ),
    {
        let plan: ReadPlan = match self.plan_read(line_range) {
            Err(e) => {
                return Err(e);
            },
            Ok(None) => {
                let content = GrabbedContent { grabbed_elements: Vec::new() };
                assert(content@ =~= plain_elements(self@.source_id, Seq::empty()));
                return Ok(content);
            },
            Ok(Some(plan)) => plan,
        };
        let path: &str = self.path.as_str();
        let got: Result<Vec<u8>, String> = read(path, plan.bytes.start, plan.bytes.end);
        assert(call_ensures(*read, (path, plan.bytes.start, plan.bytes.end), got));
        match got {
            Ok(window) => Ok(self.entries_in_window(&plan, window.as_slice())),
            Err(text) => Err(GrabError::IoOperation(text)),
        }
    }

    /// The lines of `line_range`, read from a file that is held in memory.
    ///
    /// A range that names no line is refused, and so is a grabber without a
    /// slot table.  A range that the table does not cover yields no line.
    /// Otherwise the slots that the range touches are cut into lines, and
    /// those of the range are returned; where the table asks for bytes that
    /// the file does not have, the read fails.
    pub fn get_entries(&self, line_range: &LineRange, file: &[u8]) -> (r: Result<
        GrabbedContent,
        GrabError,
    >)
        requires
            self.wf(),
        ensures
            !line_range.wf() ==> r == Err::<GrabbedContent, GrabError>(
                GrabError::InvalidRange(*line_range),
            ),
            line_range.wf() && self.table() is None ==> fails_with_config(
                r,
                "No metadata available"@,
            ),
            line_range.wf() ==> (self.table() matches Some(md) ==> self.read_gives(
                md,
                file@,
                *line_range,
                r,
            )),
            self.read_gave(file@, *line_range, r),
    {
        let plan: ReadPlan = match self.plan_read(line_range) {
            Err(e) => {
                return Err(e);
            },
            Ok(None) => {
                let content = GrabbedContent { grabbed_elements: Vec::new() };
                assert(content@ =~= plain_elements(self.source_id@, Seq::empty()));
                return Ok(content);
            },
            Ok(Some(plan)) => plan,
        };
        if plan.bytes.end > file.len() as u64 {
            return Err(GrabError::IoOperation("failed to fill whole buffer".to_owned()));
        }
        let from: usize = plan.bytes.start as usize;
        let to: usize = plan.bytes.end as usize;
        let window: &[u8] = &file[from..to];
        Ok(self.entries_in_window(&plan, window))
    }
}

} // verus!
