//! Selection state machine and configuration patching for a display-manager
//! theme chooser.

pub mod app;
pub mod config;
pub mod layout;
pub mod patch_laws;
pub mod text;
pub mod theme;
pub mod write;
