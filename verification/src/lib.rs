//! Core of the Lux editor: the text buffer, the caret and undo model, the
//! editing commands of an open document and the set of open documents; the
//! key map and smart bracket pairing; the command palette's registry,
//! fuzzy ranking and state; the recent-items store and settings defaults;
//! the window chrome's decisions; and the path rules the editor relies on.

pub mod buffer;
pub mod chrome;
pub mod commands;
pub mod config;
pub mod document;
pub mod editor;
pub mod image;
pub mod keys;
pub mod lines;
pub mod pairing;
pub mod panel;
pub mod paths;
pub mod rank;
pub mod rope;
pub mod text;
pub mod workbench;
pub mod workspace;
