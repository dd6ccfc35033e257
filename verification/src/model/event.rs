//! Events and their severity.

use vstd::prelude::*;

verus! {

/// Identity of an event inside one store.  Zero means "not assigned yet".
#[derive(Clone, Copy, Debug, PartialEq, Eq, Hash, Structural)]
pub struct EventId(pub u64);

/// How serious a finding is.  `High` ranks before `Warning`, which ranks
/// before `Info`.
#[derive(Clone, Copy, Debug, PartialEq, Eq, Structural)]
pub enum Severity {
    Info,
    Warning,
    High,
}

impl Severity {
    /// The four-letter tag shown next to an event.
    pub open spec fn label_text(self) -> Seq<char> {
        match self {
            Severity::Info => "INFO"@,
            Severity::Warning => "WARN"@,
            Severity::High => "HIGH"@,
        }
    }

    /// Position in the ranking: 0 for `High`, 1 for `Warning`, 2 for `Info`.
    pub open spec fn rank(self) -> nat {
        match self {
            Severity::High => 0,
            Severity::Warning => 1,
            Severity::Info => 2,
        }
    }

    pub fn label(self) -> (r: &'static str)
        ensures
            r@ == self.label_text(),
    {
        match self {
            Severity::Info => "INFO",
            Severity::Warning => "WARN",
            Severity::High => "HIGH",
        }
    }
}

/// One entry of the narrative shown on the timeline.
#[derive(Clone, Debug)]
pub struct Event {
    pub id: EventId,
    /// Synthetic offset in milliseconds from the start of the narrative.
    pub t_ms: u64,
    pub severity: Severity,
    pub title: String,
    pub details: String,
    pub source: String,
}

/// What an [`Event`] holds, with its texts as character sequences.
#[verifier::ext_equal]
pub struct EventView {
    pub id: EventId,
    pub t_ms: u64,
    pub severity: Severity,
    pub title: Seq<char>,
    pub details: Seq<char>,
    pub source: Seq<char>,
}

impl DeepView for Event {
    type V = EventView;

    open spec fn deep_view(&self) -> EventView {
        EventView {
            id: self.id,
            t_ms: self.t_ms,
            severity: self.severity,
            title: self.title@,
            details: self.details@,
            source: self.source@,
        }
    }
}

} // verus!
