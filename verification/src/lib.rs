//! Editing logic of the map editor and automations windows.

pub mod list;
pub mod text;
pub mod words;
pub mod map_editor_window;
pub mod automations_window;
