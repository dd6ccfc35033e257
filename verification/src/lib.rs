//! Forensic triage of a process crash dump: recovery of command lines from raw
//! memory, detection of allocations that look like injected code, and the rules
//! that turn both into ranked detections.

pub mod text;
pub mod model;
pub mod ingest;
pub mod util;
pub mod app;
pub mod ui;
