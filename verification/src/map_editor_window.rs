//! The map editor window.

pub mod model;
pub mod cache;
pub mod mutation;
pub mod commands;
pub mod compile;
pub mod stack;
pub mod history;
pub mod edits;
pub mod links;
pub mod creation;
pub mod deletion;
pub mod undoing;
pub mod doing;
pub mod restoring;
pub mod withdrawing;
pub mod relinking;
pub mod wiring;
pub mod joining;
pub mod rewiring;
pub mod reconnecting;
pub mod disconnecting;
pub mod unpasting;
pub mod clipboard;
pub mod paste;
pub mod copying;
pub mod pasted_links;
pub mod copied_links;
pub mod deleting;
pub mod inspector;
pub mod families;
pub mod scopes;
pub mod sharers;
pub mod area_list;
pub mod shared_list;
pub mod area_tree;
pub mod area_plan;
pub mod automatic_routing;
pub mod window;
pub mod hotkeys;
pub mod navigation;
pub mod asking;
pub mod dialogs;
pub mod copies;
pub mod conversations;
pub mod folders;
pub mod update;
