//! Per-platform logic that sits between the native dialogs and the caller.

pub mod filters;
pub mod desktop;
pub mod zenity;
pub mod android;
pub mod ios;
pub mod wasm;
