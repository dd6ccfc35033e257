//! The state of the viewer.

mod state;
mod ui_state;

pub use state::LogAtlasApp;
pub use ui_state::{DetailsTab, UiState};
