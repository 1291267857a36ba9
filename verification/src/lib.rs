//! Verified core of a fuzzy, content-searchable file explorer: settings,
//! session and undo persistence formats, text-field editing, the keyboard
//! map, overlays, the folder tree, version checks, naming rules, previews,
//! file operations and the explorer's tab / selection state.

pub mod content;
pub mod debounce;
pub mod display;
pub mod edit;
pub mod explorer;
pub mod fileops;
pub mod highlight;
pub mod index;
pub mod keys;
pub mod names;
pub mod overlay;
pub mod paths;
pub mod preview;
pub mod selection;
pub mod session;
pub mod settings;
pub mod sorting;
pub mod text;
pub mod tree;
pub mod undo;
pub mod updater;
