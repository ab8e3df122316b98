//! Random access to the lines of large log files.
//!
//! A file is scanned once into a table of slots, each recording a byte span and
//! the span of line numbers that starts inside it.  A grabber then serves any
//! range of lines by reading only the slots that the range touches.  A session
//! serialises the long-running jobs on a file and reports their outcome as
//! events.

pub mod channels;
pub mod events;
pub mod grabber;
pub mod holder;
pub mod ids;
pub mod laws;
pub mod lines;
pub mod scan;
pub mod search;
pub mod session;
pub mod slots;
pub mod text;
pub mod worker;

pub use events::{
    CallbackEvent, ComputationError, GeneralError, NativeError, NativeErrorKind, OperationDone,
    SearchOperationResult, Severity,
};
pub use grabber::{GrabError, GrabbedContent, GrabbedElement, Grabber, ReadPlan};
pub use holder::GrabberHolder;
pub use ids::OperationId;
pub use scan::{ComputationResult, MetadataBuilder, ScanStep};
pub use search::{SearchFilter, WrappedSearchFilter};
pub use session::{
    get_supported_file_type, Operation, RustSession, SessionState, SessionWorker,
    SupportedFileType,
};
pub use slots::{ByteRange, GrabMetadata, LineRange, Slot};
