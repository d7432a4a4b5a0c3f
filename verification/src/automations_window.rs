//! The automations window: what an automation reads of the session's state.

pub mod addresses;
pub mod paths;
pub mod phrases;
pub mod exposures;
pub mod notes;
pub mod catalogue;
pub mod references;
pub mod topbar;
pub mod state_values;
pub mod pickers;
pub mod browser;
pub mod store_inspector;
pub mod figures;
pub mod store_pane;
pub mod state_module;
