//! Tabs, filters and selections of the viewer.

use vstd::prelude::*;

verus! {

broadcast use vstd::string::group_string_axioms;

/// The tabs of the inspector.
#[derive(Clone, Copy, Debug, PartialEq, Eq, Structural)]
pub enum DetailsTab {
    Event,
    Overview,
    Processes,
    Memory,
    Modules,
    Threads,
    Stacks,
    Exception,
    Detections,
}

impl Default for DetailsTab {
    fn default() -> (r: DetailsTab)
        ensures
            r == DetailsTab::Event,
    {
        DetailsTab::Event
    }
}

/// What the viewer remembers between two frames: filters and selections.
pub struct UiState {
    pub filter: String,
    pub show_about: bool,
    pub last_error: Option<String>,
    pub details_tab: DetailsTab,
    pub process_filter: String,
    pub selected_exec_artifact: Option<usize>,
    pub selected_injected_region: Option<usize>,
    pub module_filter: String,
    pub thread_filter: String,
    pub selected_module: Option<usize>,
    pub selected_thread: Option<u32>,
    pub selected_stack_thread: Option<u32>,
    pub stack_filter: String,
}

impl UiState {
    /// Nothing is selected and no filter is set.
    pub open spec fn is_initial(&self) -> bool {
        &&& self.filter@.len() == 0
        &&& !self.show_about
        &&& self.last_error is None
        &&& self.details_tab == DetailsTab::Event
        &&& self.process_filter@.len() == 0
        &&& self.selected_exec_artifact is None
        &&& self.selected_injected_region is None
        &&& self.module_filter@.len() == 0
        &&& self.thread_filter@.len() == 0
        &&& self.selected_module is None
        &&& self.selected_thread is None
        &&& self.selected_stack_thread is None
        &&& self.stack_filter@.len() == 0
    }
}

impl Default for UiState {
    fn default() -> (r: UiState)
        ensures
            r.is_initial(),
    {
        UiState {
            filter: String::new(),
            show_about: false,
            last_error: None,
            details_tab: DetailsTab::Event,
            process_filter: String::new(),
            selected_exec_artifact: None,
            selected_injected_region: None,
            module_filter: String::new(),
            thread_filter: String::new(),
            selected_module: None,
            selected_thread: None,
            selected_stack_thread: None,
            stack_filter: String::new(),
        }
    }
}

} // verus!
