//! The worker of a session: what it hands over and what it reports when a
//! job has ended.

use crate::channels::{offer, poll, Received};
use crate::events::{
    event_views, CallbackEvent, ComputationError, ErrorView, EventView, NativeError,
    NativeErrorKind, OperationDone, Severity,
};
use crate::ids::OperationId;
use crate::scan::ComputationResult;
use crate::session::{MetadataMessage, SearchHandoff, SessionWorker};
use crate::slots::GrabMetadata;
use crate::text::join;
use crossbeam_channel::{Receiver, Sender};
use vstd::prelude::*;

verus! {

/// How the scan of a file ended: with a table, stopped, or with a failure
/// that is told in words.
pub type ScanOutcome = Result<ComputationResult<GrabMetadata>, String>;

/// What a search that ran to its end left behind.
#[derive(Debug, PartialEq)]
pub struct SearchFound {
    /// Where the results lie.
    pub file_path: String,
    /// How many lines matched.
    pub found: usize,
    /// How the scan of the results file ended.  There is no scan where
    /// nothing matched.
    pub scanned: Option<ScanOutcome>,
    /// The outcome of the search in its outward form, or why it has none.
    pub serialized: Result<String, String>,
}

/// A job of the worker that has ended, with what came of it.
#[derive(Debug, PartialEq)]
pub enum Completed {
    Assign { operation_id: OperationId, scanned: ScanOutcome },
    Search { operation_id: OperationId, searched: Result<SearchFound, String> },
    End,
}

/// The event that tells of the end of an operation that has no result to
/// show.
pub open spec fn done_event(uuid: OperationId) -> EventView {
    EventView::OperationDone { uuid, result: None }
}

/// The event that tells of a failed computation.
pub open spec fn computation_failed(uuid: OperationId) -> EventView {
    EventView::OperationError {
        uuid,
        severity: Severity::WARNING,
        kind: NativeErrorKind::ComputationFailed,
        message: None,
    }
}

/// What the observer is told when the scan of the assigned file has ended:
/// the line count where there is a table, the failure where there is one, and
/// in every case that the operation is done.
pub open spec fn assign_events(uuid: OperationId, scanned: ScanOutcome) -> Seq<EventView> {
    match scanned {
        Ok(ComputationResult::Item(md)) => seq![
            EventView::StreamUpdated(md.line_count as u64),
            done_event(uuid),
        ],
        Ok(ComputationResult::Stopped) => seq![done_event(uuid)],
        Err(_) => seq![computation_failed(uuid), done_event(uuid)],
    }
}

/// What the worker hands to the session when the scan of the assigned file
/// has ended.
pub open spec fn assign_message(scanned: ScanOutcome) -> Result<Option<GrabMetadata>, ErrorView> {
    match scanned {
        Ok(ComputationResult::Item(md)) => Ok(Some(md)),
        Ok(ComputationResult::Stopped) => Ok(None),
        Err(text) => Err(ErrorView::Process("Could not compute metadata: "@ + text@)),
    }
}

/// The message, with its failure as plain values.
pub open spec fn message_view(message: MetadataMessage) -> Result<Option<GrabMetadata>, ErrorView> {
    match message {
        Ok(table) => Ok(table),
        Err(e) => Err(e@),
    }
}

/// What the observer is told of the number of search results: `0` where
/// nothing matched, else the line count of the results file, if its scan gave
/// a table, and the failure of the scan, if it failed.
pub open spec fn search_update_events(uuid: OperationId, found: SearchFound) -> Seq<EventView> {
    if found.found == 0 {
        seq![EventView::SearchUpdated(0)]
    } else {
        match found.scanned {
            Some(Ok(ComputationResult::Item(md))) => seq![
                EventView::SearchUpdated(md.line_count as u64),
            ],
            Some(Ok(ComputationResult::Stopped)) => Seq::empty(),
            Some(Err(_)) => seq![computation_failed(uuid)],
            None => Seq::empty(),
        }
    }
}

/// What the observer is told at the end of a search: the outcome in its
/// outward form, or why there is none.
pub open spec fn search_end_events(uuid: OperationId, found: SearchFound) -> Seq<EventView> {
    match found.serialized {
        Ok(text) => seq![EventView::OperationDone { uuid, result: Some(text@) }],
        Err(text) => seq![
            EventView::OperationError {
                uuid,
                severity: Severity::ERROR,
                kind: NativeErrorKind::ComputationFailed,
                message: Some(text@),
            },
        ],
    }
}

/// What the observer is told when a search has ended.  A search that failed
/// is reported as failed and nothing else.
pub open spec fn search_events(uuid: OperationId, searched: Result<SearchFound, String>) -> Seq<
    EventView,
> {
    match searched {
        Err(text) => seq![
            EventView::OperationError {
                uuid,
                severity: Severity::ERROR,
                kind: NativeErrorKind::OperationSearch,
                message: Some("Fail to execute search. Error: "@ + text@),
            },
        ],
        Ok(found) => search_update_events(uuid, found) + search_end_events(uuid, found),
    }
}

/// The results that the worker hands to the session when a search has
/// ended: those of a search that matched something and whose results file
/// was scanned to its end.
pub open spec fn search_message(searched: Result<SearchFound, String>) -> Option<
    (Seq<char>, GrabMetadata),
> {
    match searched {
        Ok(found) => if found.found == 0 {
            None
        } else {
            match found.scanned {
                Some(Ok(ComputationResult::Item(md))) => Some((found.file_path@, md)),
                _ => None,
            }
        },
        Err(_) => None,
    }
}

/// The results, as plain values.
pub open spec fn handoff_view(handoff: Option<SearchHandoff>) -> Option<(Seq<char>, GrabMetadata)> {
    match handoff {
        Some(h) => Some((h.file_path@, h.metadata)),
        None => None,
    }
}

/// What the observer is told when a job has ended.
pub open spec fn events_of(done: Completed) -> Seq<EventView> {
    match done {
        Completed::Assign { operation_id, scanned } => assign_events(operation_id, scanned),
        Completed::Search { operation_id, searched } => search_events(operation_id, searched),
        Completed::End => seq![EventView::SessionDestroyed],
    }
}

/// What the worker does when a job has ended.
pub struct Reaction {
    /// What goes on the queue of scan results.
    pub content_message: Option<MetadataMessage>,
    /// What goes on the queue of search results.
    pub search_message: Option<SearchHandoff>,
    /// What the observer is told, in this order.
    pub events: Vec<CallbackEvent>,
    /// Whether the worker leaves.
    pub leave: bool,
}

fn done(uuid: OperationId) -> (event: CallbackEvent)
    ensures
        event@ == done_event(uuid),
{
    CallbackEvent::OperationDone(OperationDone { uuid, result: None })
}

fn failed(uuid: OperationId) -> (event: CallbackEvent)
    ensures
        event@ == computation_failed(uuid),
{
    CallbackEvent::OperationError(
        uuid,
        NativeError {
            severity: Severity::WARNING,
            kind: NativeErrorKind::ComputationFailed,
            message: None,
        },
    )
}

/// Decides what to hand over and what to report when a job has ended.
pub fn react(done_job: Completed) -> (reaction: Reaction)
    ensures
        event_views(reaction.events@) == events_of(done_job),
        reaction.leave == (done_job is End),
        match done_job {
            Completed::Assign { operation_id, scanned } => reaction.content_message matches Some(
                message,
            ) && message_view(message) == assign_message(scanned) && reaction.search_message
                is None,
            Completed::Search { operation_id, searched } => reaction.content_message is None
                && handoff_view(reaction.search_message) == search_message(searched),
            Completed::End => reaction.content_message is None && reaction.search_message is None,
        },
{
    let mut events: Vec<CallbackEvent> = Vec::new();
    match done_job {
        Completed::Assign { operation_id, scanned } => {
            let message: MetadataMessage = match scanned {
                Ok(ComputationResult::Item(md)) => {
                    events.push(CallbackEvent::StreamUpdated(md.line_count as u64));
                    Ok(Some(md))
                },
                Ok(ComputationResult::Stopped) => Ok(None),
                Err(text) => {
                    events.push(failed(operation_id));
                    Err(
                        ComputationError::Process(
                            join("Could not compute metadata: ", text.as_str()),
                        ),
                    )
                },
            };
            events.push(done(operation_id));
            assert(event_views(events@) =~= assign_events(operation_id, scanned));
            Reaction { content_message: Some(message), search_message: None, events, leave: false }
        },
        Completed::Search { operation_id, searched } => {
            let found: SearchFound = match searched {
                Ok(found) => found,
                Err(text) => {
                    events.push(
                        CallbackEvent::OperationError(
                            operation_id,
                            NativeError {
                                severity: Severity::ERROR,
                                kind: NativeErrorKind::OperationSearch,
                                message: Some(
                                    join("Fail to execute search. Error: ", text.as_str()),
                                ),
                            },
                        ),
                    );
                    assert(event_views(events@) =~= search_events(operation_id, searched));
                    return Reaction {
                        content_message: None,
                        search_message: None,
                        events,
                        leave: false,
                    };
                },
            };
            let ghost whole = found;
            let SearchFound { file_path, found: count, scanned, serialized } = found;
            let mut search_message: Option<SearchHandoff> = None;
            if count == 0 {
                events.push(CallbackEvent::SearchUpdated(0));
            } else {
                match scanned {
                    Some(Ok(ComputationResult::Item(md))) => {
                        events.push(CallbackEvent::SearchUpdated(md.line_count as u64));
                        search_message = Some(SearchHandoff { file_path, metadata: md });
                    },
                    Some(Ok(ComputationResult::Stopped)) => {},
                    Some(Err(_)) => {
                        events.push(failed(operation_id));
                    },
                    None => {},
                }
            }
            assert(event_views(events@) =~= search_update_events(operation_id, whole));
            let ghost updates = event_views(events@);
            match serialized {
                Ok(text) => {
                    events.push(
                        CallbackEvent::OperationDone(
                            OperationDone { uuid: operation_id, result: Some(text) },
                        ),
                    );
                },
                Err(text) => {
                    events.push(
                        CallbackEvent::OperationError(
                            operation_id,
                            NativeError {
                                severity: Severity::ERROR,
                                kind: NativeErrorKind::ComputationFailed,
                                message: Some(text),
                            },
                        ),
                    );
                },
            }
            assert(event_views(events@) =~= updates + search_end_events(operation_id, whole));
            Reaction { content_message: None, search_message, events, leave: false }
        },
        Completed::End => {
            events.push(CallbackEvent::SessionDestroyed);
            assert(event_views(events@) =~= seq![EventView::SessionDestroyed]);
            Reaction { content_message: None, search_message: None, events, leave: true }
        },
    }
}

/// Puts a value on a queue of one place.  Where the place is taken, the
/// value that waits there makes room for the new one.
pub(crate) fn publish<T>(sender: &Sender<T>, receiver: &Receiver<T>, value: T) {
    match offer(sender, value) {
        None => {},
        Some(back) => {
            let _waiting: Received<T> = poll(receiver);
            let _refused: Option<T> = offer(sender, back);
        },
    }
}

/// The events that a worker reports for a queue of ended jobs, taken in
/// order.  The worker leaves at the first `End`; what stands behind it is
/// never looked at.
pub open spec fn log_of(jobs: Seq<Completed>) -> Seq<EventView>
    decreases jobs.len(),
{
    if jobs.len() == 0 {
        Seq::empty()
    } else if jobs[0] is End {
        events_of(jobs[0])
    } else {
        events_of(jobs[0]) + log_of(jobs.drop_first())
    }
}

/// Events follow the order of the queue: what is reported for a job stands
/// behind everything that is reported for the jobs before it, and before
/// everything that is reported for the jobs behind it.
pub proof fn lemma_events_follow_queue_order(jobs: Seq<Completed>, k: int)
    requires
        0 <= k < jobs.len(),
        forall|i: int| 0 <= i < k ==> !(#[trigger] jobs[i] is End),
    ensures
        log_of(jobs) == log_of(jobs.take(k)) + events_of(jobs[k]) + if jobs[k] is End {
            Seq::<EventView>::empty()
        } else {
            log_of(jobs.skip(k + 1))
        },
    decreases k,
{
    if k == 0 {
        assert(jobs.take(0) == Seq::<Completed>::empty());
        assert(jobs.skip(1) == jobs.drop_first());
        assert(log_of(jobs.take(0)) == Seq::<EventView>::empty());
        assert(Seq::<EventView>::empty() + events_of(jobs[0]) == events_of(jobs[0]));
        if jobs[0] is End {
            assert(events_of(jobs[0]) + Seq::<EventView>::empty() == events_of(jobs[0]));
        }
    } else {
        let rest = jobs.drop_first();
        assert(!(jobs[0] is End));
        assert forall|i: int| 0 <= i < k - 1 implies !(#[trigger] rest[i] is End) by {
            assert(rest[i] == jobs[i + 1]);
        }
        lemma_events_follow_queue_order(rest, k - 1);
        assert(rest[k - 1] == jobs[k]);
        assert(rest.skip(k) == jobs.skip(k + 1));
        assert(jobs.take(k).drop_first() == rest.take(k - 1));
        assert(jobs.take(k)[0] == jobs[0]);
        let tail = if jobs[k] is End {
            Seq::<EventView>::empty()
        } else {
            log_of(jobs.skip(k + 1))
        };
        assert(log_of(jobs.take(k)) == events_of(jobs[0]) + log_of(rest.take(k - 1)));
        assert(events_of(jobs[0]) + (log_of(rest.take(k - 1)) + events_of(jobs[k]) + tail) =~= (
        events_of(jobs[0]) + log_of(rest.take(k - 1))) + events_of(jobs[k]) + tail);
    }
}

/// What a worker says when it has handed over what a job left behind.
#[derive(Debug, Clone, PartialEq)]
pub struct Reported {
    /// What the observer is to be told, in this order.
    pub events: Vec<CallbackEvent>,
    /// Whether the worker leaves: it does when the job was `End`.
    pub leave: bool,
}

impl SessionWorker {
    /// Hands over what a job left behind and says what the observer is to
    /// be told, in order, and whether the worker leaves.
    pub fn report(&self, done_job: Completed) -> (reported: Reported)
        ensures
            event_views(reported.events@) == events_of(done_job),
            reported.leave == (done_job is End),
    {
        let reaction: Reaction = react(done_job);
        let Reaction { content_message, search_message, events, leave } = reaction;
        match content_message {
            Some(message) => {
                self.publish_content(message);
            },
            None => {},
        }
        match search_message {
            Some(handoff) => {
                self.publish_search(handoff);
            },
            None => {},
        }
        Reported { events, leave }
    }

    /// Reports on a queue of ended jobs, one after the other, up to the
    /// first `End`.
    pub fn run(&self, queue: Vec<Completed>) -> (log: Vec<CallbackEvent>)
        ensures
            event_views(log@) == log_of(queue@),
    {
        let ghost all = queue@;
        let mut pending: Vec<Completed> = queue;
        let mut log: Vec<CallbackEvent> = Vec::new();
        assert(event_views(log@) + log_of(pending@) =~= log_of(all));
        while pending.len() > 0
            invariant
                all == queue@,
                event_views(log@) + log_of(pending@) == log_of(all),
            decreases pending@.len(),
        {
            let ghost before = pending@;
            let ghost logged = event_views(log@);
            let done_job: Completed = pending.remove(0);
            assert(pending@ == before.drop_first());
            let reported: Reported = self.report(done_job);
            let Reported { events, leave } = reported;
            let mut events: Vec<CallbackEvent> = events;
            let ghost told = event_views(events@);
            log.append(&mut events);
            assert(event_views(log@) =~= logged + told);
            if leave {
                assert(logged + told == log_of(all));
                return log;
            }
            assert((logged + told) + log_of(pending@) =~= logged + (told + log_of(pending@)));
        }
        assert(event_views(log@) + Seq::<EventView>::empty() =~= event_views(log@));
        log
    }
}

} // verus!
