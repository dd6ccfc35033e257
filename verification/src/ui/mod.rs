//! Texts and tests that the viewer needs to show a report.

pub mod details;
pub mod timeline;
