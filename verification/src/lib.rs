//! Core logic of the emulsion image viewer: version numbers, configuration,
//! key bindings, directory navigation, load bookkeeping and playback decisions.

pub mod text;
pub mod version;
pub mod configuration;
pub mod input_handling;
pub mod image_cache;
pub mod parallel_action;
pub mod gui;
pub mod playback;
pub mod viewer;
pub mod cmd_line;
pub mod package;
