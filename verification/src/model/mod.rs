//! The report of a dump, the findings in it, and the events that tell of it.

pub mod event;
pub mod minidump_report;
pub mod minidump_summary;
pub mod store;

pub use event::{Event, EventId, Severity};
pub use minidump_report::{
    detect_exec_artifact, detect_region, Detection, ExceptionInfo, ExecArtifactEncoding,
    InjectedRegion, MinidumpReport, ModuleInfo, ProcessExecArtifact, ProcessInfo, StackFrameInfo,
    StackwalkReport, ThreadInfo, ThreadStackTrace,
};
pub use minidump_summary::MinidumpSummary;
pub use store::EventStore;
