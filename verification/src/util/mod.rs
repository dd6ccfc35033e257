//! Helpers that more than one part of the library needs.

pub mod time;
