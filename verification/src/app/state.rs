//! What the viewer shows, and how a dump is taken over.

use crate::app::ui_state::{DetailsTab, UiState};
use crate::ingest::minidump_ingest::IngestedMinidump;
use crate::model::store::demo_events;
use crate::model::{EventId, EventStore, MinidumpReport, MinidumpSummary};
use std::path::PathBuf;
use vstd::prelude::*;

verus! {

broadcast use vstd::string::group_string_axioms;

/// A path of the file system, as the standard library holds it.
#[verifier::external_type_specification]
#[verifier::external_body]
pub struct ExPathBuf(PathBuf);

/// The state of the viewer: the narrative on show, the dump it came from,
/// and what is selected.
pub struct LogAtlasApp {
    pub events: EventStore,
    pub selected: Option<EventId>,
    pub ui: UiState,
    pub dump_path: Option<PathBuf>,
    pub dump_summary: Option<MinidumpSummary>,
    pub dump_report: Option<MinidumpReport>,
}

impl Default for LogAtlasApp {
    /// Before a dump is loaded the viewer shows a sample narrative, with its
    /// first event selected.
    fn default() -> (r: LogAtlasApp)
        ensures
            r.events.wf(),
            r.events.deep_view() == demo_events(),
            r.selected == Some(EventId(1)),
            r.ui.is_initial(),
            r.dump_path is None,
            r.dump_summary is None,
            r.dump_report is None,
    {
        let events = EventStore::demo();
        let selected = events.first_id();
        assert(demo_events().len() == 3);
        assert(events.deep_view().len() == events.view().len());
        assert(events.deep_view()[0] == events.view()[0].deep_view());
        LogAtlasApp {
            events,
            selected,
            ui: UiState::default(),
            dump_path: None,
            dump_summary: None,
            dump_report: None,
        }
    }
}

impl LogAtlasApp {
    /// The selections and the stack filter are as after a fresh start, and
    /// the overview is on show; the other filters are those of `before`.
    pub open spec fn shows_overview_of(&self, before: LogAtlasApp) -> bool {
        &&& self.ui.details_tab == DetailsTab::Overview
        &&& self.ui.selected_exec_artifact is None
        &&& self.ui.selected_injected_region is None
        &&& self.ui.selected_module is None
        &&& self.ui.selected_thread is None
        &&& self.ui.selected_stack_thread is None
        &&& self.ui.stack_filter@.len() == 0
        &&& self.ui.filter == before.ui.filter
        &&& self.ui.show_about == before.ui.show_about
        &&& self.ui.process_filter == before.ui.process_filter
        &&& self.ui.module_filter == before.ui.module_filter
        &&& self.ui.thread_filter == before.ui.thread_filter
    }

    /// Takes over what was made of the dump at `path`, or fails with the
    /// reason why nothing could be made of it.
    ///
    /// In both cases the last error is forgotten.  On failure nothing else
    /// changes.  On success the narrative of the dump is on show with its
    /// first event selected, and the inspector shows the overview with
    /// nothing selected.
    pub fn load_minidump(&mut self, path: PathBuf, loaded: Result<IngestedMinidump, String>) -> (r:
        Result<(), String>)
        ensures
            final(self).ui.last_error is None,
            match loaded {
                Ok(made) => {
                    &&& r is Ok
                    &&& final(self).dump_path == Some(path)
                    &&& final(self).dump_summary == Some(made.summary)
                    &&& final(self).dump_report == Some(made.report)
                    &&& final(self).events == made.events
                    &&& final(self).selected == if made.events.view().len() == 0 {
                        None
                    } else {
                        Some(made.events.view()[0].id)
                    }
                    &&& final(self).shows_overview_of(*old(self))
                },
                Err(why) => {
                    &&& r == Err::<(), String>(why)
                    &&& final(self).events == old(self).events
                    &&& final(self).selected == old(self).selected
                    &&& final(self).dump_path == old(self).dump_path
                    &&& final(self).dump_summary == old(self).dump_summary
                    &&& final(self).dump_report == old(self).dump_report
                    &&& final(self).ui == (UiState { last_error: None, ..old(self).ui })
                },
            },
    {
        self.ui.last_error = None;
        let made = match loaded {
            Ok(made) => made,
            Err(why) => {
                return Err(why);
            },
        };
        self.dump_path = Some(path);
        self.dump_summary = Some(made.summary);
        self.dump_report = Some(made.report);
        self.events = made.events;
        self.selected = self.events.first_id();
        self.ui.details_tab = DetailsTab::Overview;
        self.ui.selected_exec_artifact = None;
        self.ui.selected_injected_region = None;
        self.ui.selected_module = None;
        self.ui.selected_thread = None;
        self.ui.selected_stack_thread = None;
        self.ui.stack_filter = String::new();
        Ok(())
    }
}

} // verus!
