//! Plugin manifests, the placeholder grammar of plugin command templates,
//! and the pure parts of running and registering plugins.

pub mod text;
pub mod placeholder;
pub mod ansi;
pub mod registry;
pub mod entries;
pub mod manifest;
pub mod command;
pub mod skin;
pub mod store;
