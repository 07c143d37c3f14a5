//! Cross-platform, frontend-agnostic file picker and capability-based file
//! access.
//!
//! This crate holds the verified core of the picker: the options the caller
//! passes, the capability tokens every pick hands back (with their stored
//! text format), the error types, the one-shot result slot that bridges
//! platform callbacks into futures, and the per-platform decisions that sit
//! between the native dialogs and the caller.

pub mod api;
pub mod error;
pub mod future;
pub mod platform;
pub mod text;
pub mod token;
pub mod token_format;

pub use api::{FilePicker, PickOptions, SaveOptions};
pub use error::{AccessError, PickerError, TokenParseError};
pub use token::{FileAccessToken, PermissionStatus, TokenInner};
