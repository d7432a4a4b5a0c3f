//! The inspector pane: editable forms for the current selection.

pub mod state;
pub mod ports;
pub mod secrets;
pub mod action;
pub mod rooms;
pub mod typing;
pub mod drawings;
pub mod wires;
pub mod connections;
pub mod hooking;
pub mod showing;
pub mod message;
pub mod panel;
pub mod summary;
pub mod forms;
