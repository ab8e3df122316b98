//! A grabber together with the queue on which its slot table arrives.

use crate::channels::{bounded_queue, poll, share_receiver, Received};
use crate::events::{fails_with, ComputationError, ErrorView};
use crate::grabber::{callable, reads, GrabError, GrabbedContent, Grabber};
use crate::scan::{line_total, ComputationResult, DEFAULT_SLOT_SIZE};
use crate::session::{
    is_failed_read, lines_came, page, page_range, read_lines, session_read, views_of, yields,
};
use crate::slots::GrabMetadata;
use crate::worker::publish;
use crossbeam_channel::{Receiver, Sender};
use vstd::prelude::*;

verus! {

/// A grabber that gets its slot table from a scan that runs elsewhere.
pub struct GrabberHolder {
    grabber: Grabber,
    shutdown_tx: Sender<()>,
    shutdown_rx: Receiver<()>,
    metadata_tx: Sender<Option<GrabMetadata>>,
    metadata_rx: Receiver<Option<GrabMetadata>>,
}

impl View for GrabberHolder {
    type V = Grabber;

    closed spec fn view(&self) -> Grabber {
        self.grabber
    }
}

/// What a holder does when a scan has ended.
pub struct ScanReport {
    /// What goes on the queue, if anything does: the table, or nothing where
    /// the scan was stopped.
    pub message: Option<Option<GrabMetadata>>,
    /// What the caller is told.
    pub result: Result<(), ComputationError>,
}

/// Decides what to hand over and what to answer when a scan has ended.  A
/// scan that ran to its end hands over its table, a scan that was stopped
/// hands over that there is none, and both are a success.  A scan that failed
/// hands over nothing and is a failure of communication.
pub fn scan_report(scanned: Result<ComputationResult<GrabMetadata>, GrabError>) -> (report:
    ScanReport)
    ensures
        match scanned {
            Ok(ComputationResult::Item(md)) => report.message == Some(Some(md))
                && report.result is Ok,
            Ok(ComputationResult::Stopped) => report.message == Some(None::<GrabMetadata>)
                && report.result is Ok,
            Err(_) => report.message is None && fails_with(
                report.result,
                ErrorView::Communication("Could not create metadata"@),
            ),
        },
{
    match scanned {
        Ok(ComputationResult::Item(md)) => ScanReport { message: Some(Some(md)), result: Ok(()) },
        Ok(ComputationResult::Stopped) => ScanReport { message: Some(None), result: Ok(()) },
        Err(_) => ScanReport {
            message: None,
            result: Err(ComputationError::Communication("Could not create metadata".to_owned())),
        },
    }
}

/// What the arrival of `fresh` does to a grabber: a grabber without a table
/// takes the table that arrived, if it is well formed.  Everything else
/// leaves the grabber as it was.
pub open spec fn table_after(before: Grabber, fresh: Received<Option<GrabMetadata>>) -> Option<
    GrabMetadata,
> {
    match (before.table(), fresh) {
        (None, Received::Item(Some(md))) => if md.wf() {
            Some(md)
        } else {
            None
        },
        _ => before.table(),
    }
}

impl GrabberHolder {
    pub open spec fn wf(&self) -> bool {
        self@.wf()
    }

    /// The receiving end of the holder's stop signal: what `request_stop`
    /// sends on arrives there.
    pub closed spec fn stop_signal(&self) -> Receiver<()> {
        self.shutdown_rx
    }

    /// The receiving end of the queue on which the slot table arrives.
    pub closed spec fn metadata_queue(&self) -> Receiver<Option<GrabMetadata>> {
        self.metadata_rx
    }

    /// The sending end of the holder's stop signal.
    pub closed spec fn stop_sender(&self) -> Sender<()> {
        self.shutdown_tx
    }

    /// The sending end of the queue on which the slot table arrives.
    pub closed spec fn metadata_sender(&self) -> Sender<Option<GrabMetadata>> {
        self.metadata_tx
    }

    /// The holder holds the ends of the queues that `other` holds.
    pub open spec fn same_queues(&self, other: &GrabberHolder) -> bool {
        &&& self.stop_signal() == other.stop_signal()
        &&& self.metadata_queue() == other.metadata_queue()
        &&& self.stop_sender() == other.stop_sender()
        &&& self.metadata_sender() == other.metadata_sender()
    }

    /// A holder for `grabber`, with its queues.
    pub fn new(grabber: Grabber) -> (holder: GrabberHolder)
        requires
            grabber.wf(),
        ensures
            holder.wf(),
            holder@ == grabber,
    {
        let (shutdown_tx, shutdown_rx) = bounded_queue::<()>(1);
        let (metadata_tx, metadata_rx) = bounded_queue::<Option<GrabMetadata>>(1);
        GrabberHolder { grabber, shutdown_tx, shutdown_rx, metadata_tx, metadata_rx }
    }

    /// The grabber.
    pub fn grabber(&self) -> (grabber: &Grabber)
        ensures
            *grabber == self@,
    {
        &self.grabber
    }

    /// The end of the stop signal that a scan polls: a handle on the
    /// receiving end of the holder's own stop signal.
    pub fn shutdown_receiver(&self) -> (receiver: Receiver<()>)
        ensures
            receiver == self.stop_signal(),
    {
        share_receiver(&self.shutdown_rx)
    }

    /// Asks a running scan to stop.
    pub fn request_stop(&self) {
        publish(&self.shutdown_tx, &self.shutdown_rx, ());
    }

    /// Scans the file, which is held in memory, and puts what came of it on
    /// the queue, as `scan_report` decides.
    pub fn execute(&self, content: &[u8], shutdown_receiver: Option<&Receiver<()>>) -> (r: Result<
        (),
        ComputationError,
    >)
        ensures
            line_total(content@, DEFAULT_SLOT_SIZE as nat) <= usize::MAX ==> r is Ok,
            line_total(content@, DEFAULT_SLOT_SIZE as nat) > usize::MAX ==> fails_with(
                r,
                ErrorView::Communication("Could not create metadata"@),
            ),
    {
        let scanned = Grabber::create_metadata_for_file(content, shutdown_receiver);
        let report: ScanReport = scan_report(scanned);
        let ScanReport { message, result } = report;
        match message {
            Some(table) => {
                publish(&self.metadata_tx, &self.metadata_rx, table);
            },
            None => {},
        }
        result
    }

    /// Takes what the queue gave.
    pub fn accept_metadata(&mut self, fresh: Received<Option<GrabMetadata>>)
        requires
            old(self).wf(),
        ensures
            final(self).wf(),
            final(self)@.same_file(&old(self)@),
            final(self).same_queues(old(self)),
            final(self)@.table() == table_after(old(self)@, fresh),
    {
        if self.grabber.needs_metadata() {
            match fresh {
                Received::Item(Some(md)) => {
                    let _refused = self.grabber.inject_metadata(md);
                },
                _ => {},
            }
        }
    }

    /// Looks for the slot table, if it is still missing, and reads the
    /// lines `start_line_index`, `start_line_index + 1`, ..., `number_of_lines`
    /// of them, from the grabber's file through `read`.
    pub fn sync_computation<R: Fn(&str, u64, u64) -> Result<Vec<u8>, String>>(
        &mut self,
        start_line_index: u64,
        number_of_lines: u64,
        read: &R,
    ) -> (r: Result<GrabbedContent, ComputationError>)
        requires
            old(self).wf(),
            callable(*read),
        ensures
            final(self).wf(),
            final(self)@.same_file(&old(self)@),
            final(self).same_queues(old(self)),
            exists|fresh: Received<Option<GrabMetadata>>|
                final(self)@.table() == #[trigger] table_after(old(self)@, fresh),
            lines_came(
                final(self)@,
                *read,
                page_range(start_line_index, number_of_lines),
                views_of(r),
            ),
            forall|file: Seq<u8>| #[trigger]
                reads(*read, final(self)@@.path, file) ==> is_failed_read(
                    r,
                    *read,
                    final(self)@@.path,
                ) || yields(
                    r,
                    session_read(
                        final(self)@,
                        file,
                        page_range(start_line_index, number_of_lines),
                    ),
                ),
    {
        let fresh: Received<Option<GrabMetadata>> = if self.grabber.needs_metadata() {
            poll(&self.metadata_rx)
        } else {
            Received::Empty
        };
        let ghost seen = fresh;
        self.accept_metadata(fresh);
        assert(self@.table() == table_after(old(self)@, seen));
        let range = page(start_line_index, number_of_lines);
        read_lines(&self.grabber, &range, read)
    }
}

/// What a running scan tells its listener.
#[derive(Debug, PartialEq)]
pub enum IndexingProgress<T> {
    /// The scan has found something.
    GotItem { item: T },
    /// The scan has come `done` bytes into a file of `total`.
    Progress { done: u64, total: u64 },
    /// The scan was stopped.
    Stopped,
    /// The scan has run to its end.
    Finished,
}

/// What a listener does with what it was told.
#[derive(Debug, Clone, Copy, PartialEq, Eq, Structural)]
pub enum ListenerStep {
    /// Tell the host how far the scan has come, and listen on.
    Report { done: u64, total: u64 },
    /// Listen on.
    Wait,
    /// Stop listening.
    Leave,
}

/// Decides what a listener does next: it passes progress on, leaves when
/// the scan has ended one way or the other, and lets everything else go by.
pub fn listener_step<T>(told: &IndexingProgress<T>) -> (step: ListenerStep)
    ensures
        step == match *told {
            IndexingProgress::Progress { done, total } => ListenerStep::Report { done, total },
            IndexingProgress::GotItem { item } => ListenerStep::Wait,
            IndexingProgress::Stopped => ListenerStep::Leave,
            IndexingProgress::Finished => ListenerStep::Leave,
        },
{
    match told {
        IndexingProgress::Progress { done, total } => ListenerStep::Report {
            done: *done,
            total: *total,
        },
        IndexingProgress::GotItem { item: _ } => ListenerStep::Wait,
        IndexingProgress::Stopped => ListenerStep::Leave,
        IndexingProgress::Finished => ListenerStep::Leave,
    }
}

} // verus!
