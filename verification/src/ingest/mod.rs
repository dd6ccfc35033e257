//! From the streams of a dump to its report.

pub mod minidump_ingest;
pub mod minidump_exec;
pub mod minidump_injection;
pub mod minidump_stackwalk;
