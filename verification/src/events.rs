//! What a session reports: events for the observer and errors for the caller.

use crate::ids::OperationId;
use crate::text::join3;
use vstd::prelude::*;

verus! {

/// How bad an error is.
#[allow(non_camel_case_types)]
#[derive(Debug, Clone, Copy, PartialEq, Eq, Structural)]
pub enum Severity {
    /// The caller can go on.
    WARNING,
    /// The caller has to step in.
    ERROR,
}

/// What kind of fault an operation ran into.
#[derive(Debug, Clone, Copy, PartialEq, Eq, Structural)]
pub enum NativeErrorKind {
    UnsupportedFileType,
    ComputationFailed,
    OperationSearch,
}

/// A fault of an operation, as the observer is told of it.
#[derive(Debug, Clone, PartialEq)]
pub struct NativeError {
    pub severity: Severity,
    pub kind: NativeErrorKind,
    pub message: Option<String>,
}

/// The end of an operation.
#[derive(Debug, Clone, PartialEq)]
pub struct OperationDone {
    pub uuid: OperationId,
    pub result: Option<String>,
}

/// What the observer of a session is told.
#[derive(Debug, Clone, PartialEq)]
pub enum CallbackEvent {
    /// The assigned file has this many lines.
    StreamUpdated(u64),
    /// The search found this many lines.
    SearchUpdated(u64),
    /// So much of the work is done.
    Progress { done: u64, total: u64 },
    OperationDone(OperationDone),
    OperationError(OperationId, NativeError),
    SessionDestroyed,
}

/// The text of an optional string.
pub open spec fn text_of(s: Option<String>) -> Option<Seq<char>> {
    match s {
        Some(s) => Some(s@),
        None => None,
    }
}

/// An event as plain values.
pub enum EventView {
    StreamUpdated(u64),
    SearchUpdated(u64),
    Progress { done: u64, total: u64 },
    OperationDone { uuid: OperationId, result: Option<Seq<char>> },
    OperationError {
        uuid: OperationId,
        severity: Severity,
        kind: NativeErrorKind,
        message: Option<Seq<char>>,
    },
    SessionDestroyed,
}

impl View for CallbackEvent {
    type V = EventView;

    open spec fn view(&self) -> EventView {
        match self {
            CallbackEvent::StreamUpdated(n) => EventView::StreamUpdated(*n),
            CallbackEvent::SearchUpdated(n) => EventView::SearchUpdated(*n),
            CallbackEvent::Progress { done, total } => EventView::Progress {
                done: *done,
                total: *total,
            },
            CallbackEvent::OperationDone(done) => EventView::OperationDone {
                uuid: done.uuid,
                result: text_of(done.result),
            },
            CallbackEvent::OperationError(uuid, error) => EventView::OperationError {
                uuid: *uuid,
                severity: error.severity,
                kind: error.kind,
                message: text_of(error.message),
            },
            CallbackEvent::SessionDestroyed => EventView::SessionDestroyed,
        }
    }
}

/// The events of a list, as plain values.
pub open spec fn event_views(events: Seq<CallbackEvent>) -> Seq<EventView> {
    Seq::new(events.len(), |i: int| events[i]@)
}

/// Why a call on a session failed.
#[derive(Debug, Clone, PartialEq)]
pub enum ComputationError {
    /// Reading through a grabber failed.
    Communication(String),
    /// The file is of a type that the session cannot work with.
    OperationNotSupported(String),
    /// A value could not be put into its outward form.
    InvalidData,
    /// The work itself failed.
    Process(String),
    /// The session is in no state for the call.
    Protocol(String),
    /// A search was asked for before any file was assigned.
    NoAssignedContent,
}

/// A session error as plain values.
pub enum ErrorView {
    Communication(Seq<char>),
    OperationNotSupported(Seq<char>),
    InvalidData,
    Process(Seq<char>),
    Protocol(Seq<char>),
    NoAssignedContent,
}

impl View for ComputationError {
    type V = ErrorView;

    open spec fn view(&self) -> ErrorView {
        match self {
            ComputationError::Communication(m) => ErrorView::Communication(m@),
            ComputationError::OperationNotSupported(m) => ErrorView::OperationNotSupported(m@),
            ComputationError::InvalidData => ErrorView::InvalidData,
            ComputationError::Process(m) => ErrorView::Process(m@),
            ComputationError::Protocol(m) => ErrorView::Protocol(m@),
            ComputationError::NoAssignedContent => ErrorView::NoAssignedContent,
        }
    }
}

impl ErrorView {
    /// The error in words.
    pub open spec fn text(&self) -> Seq<char> {
        match self {
            ErrorView::Communication(m) => "Native communication error ("@ + *m + ")"@,
            ErrorView::OperationNotSupported(m) => "Operation not supported ("@ + *m + ")"@,
            ErrorView::InvalidData => "Invalid data error"@,
            ErrorView::Process(m) => "Error during processing: ("@ + *m + ")"@,
            ErrorView::Protocol(m) => "Wrong usage of API: ("@ + *m + ")"@,
            ErrorView::NoAssignedContent => "No content is assigned"@,
        }
    }
}

impl ComputationError {
    /// A copy of the error.
    pub fn clone_error(&self) -> (copy: ComputationError)
        ensures
            copy@ == self@,
    {
        match self {
            ComputationError::Communication(m) => ComputationError::Communication(m.clone()),
            ComputationError::OperationNotSupported(m) => ComputationError::OperationNotSupported(
                m.clone(),
            ),
            ComputationError::InvalidData => ComputationError::InvalidData,
            ComputationError::Process(m) => ComputationError::Process(m.clone()),
            ComputationError::Protocol(m) => ComputationError::Protocol(m.clone()),
            ComputationError::NoAssignedContent => ComputationError::NoAssignedContent,
        }
    }

    /// The error in words.
    pub fn to_text(&self) -> (s: String)
        ensures
            s@ == self@.text(),
    {
        match self {
            ComputationError::Communication(m) => join3(
                "Native communication error (",
                m.as_str(),
                ")",
            ),
            ComputationError::OperationNotSupported(m) => join3(
                "Operation not supported (",
                m.as_str(),
                ")",
            ),
            ComputationError::InvalidData => "Invalid data error".to_owned(),
            ComputationError::Process(m) => join3("Error during processing: (", m.as_str(), ")"),
            ComputationError::Protocol(m) => join3("Wrong usage of API: (", m.as_str(), ")"),
            ComputationError::NoAssignedContent => "No content is assigned".to_owned(),
        }
    }
}

/// The result is the error `e`.
pub open spec fn fails_with<T>(r: Result<T, ComputationError>, e: ErrorView) -> bool {
    r matches Err(err) && err@ == e
}

/// The outcome of a search, as the observer is told of it.
#[derive(Debug, Clone, PartialEq)]
pub struct SearchOperationResult {
    pub found: usize,
    pub matches: String,
}

/// A fault with its severity and a message.
#[derive(Debug, Clone, PartialEq)]
pub struct GeneralError {
    pub severity: Severity,
    pub message: String,
}

} // verus!
