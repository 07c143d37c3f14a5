//! Options for the picker dialogs, and the picker itself.
//!
//! [`FilePicker`] has no state.  Presenting a dialog is the platform's work;
//! this module fixes what the caller's options mean for each operation.

use vstd::prelude::*;

verus! {

/// Options for opening an existing file via a platform file-picker dialog.
#[derive(Debug, Clone)]
pub struct PickOptions {
    /// MIME types to filter in the picker dialog.  An empty vector means all
    /// file types are shown.
    pub mime_types: Vec<String>,
    /// Display label for the file-type filter in the picker UI.  Not all
    /// platforms support this (e.g. Android ignores it).
    pub filter_label: Option<String>,
    /// Whether the user may select multiple files.  When `false`, at most
    /// one file is returned.
    pub multi: bool,
}

impl Default for PickOptions {
    fn default() -> (r: Self)
        ensures
            r.mime_types@.len() == 0,
            r.filter_label is None,
            !r.multi,
    {
        PickOptions { mime_types: Vec::new(), filter_label: None, multi: false }
    }
}

/// Options for saving a new file or overwriting an existing one.
#[derive(Debug, Clone)]
pub struct SaveOptions {
    /// The MIME type of the file being saved.  Used by some platforms
    /// (Android) to pre-filter the save location.
    pub mime_type: Option<String>,
    /// Suggested filename including extension.  The user may change this in
    /// the save dialog.
    pub suggested_name: Option<String>,
}

impl Default for SaveOptions {
    fn default() -> (r: Self)
        ensures
            r.mime_type is None,
            r.suggested_name is None,
    {
        SaveOptions { mime_type: None, suggested_name: None }
    }
}

/// Frontend-agnostic file picker that delegates to the native platform
/// dialog.  `FilePicker` has no state and is cheap to construct.
#[derive(Debug, Clone, Copy)]
pub struct FilePicker;

impl Default for FilePicker {
    fn default() -> (r: Self) {
        FilePicker
    }
}

impl FilePicker {
    /// Create a new `FilePicker` instance.
    pub fn new() -> (r: Self) {
        FilePicker
    }

    /// The options with which a single-file pick runs: the caller's, with
    /// `multi` forced to `false` (use a multi-file pick for that).
    pub fn single_pick_options(options: PickOptions) -> (r: PickOptions)
        ensures
            r.mime_types == options.mime_types,
            r.filter_label == options.filter_label,
            !r.multi,
    {
        PickOptions { multi: false, ..options }
    }

    /// The options with which a multi-file pick runs: the caller's, with
    /// `multi` forced to `true`.
    pub fn multi_pick_options(options: PickOptions) -> (r: PickOptions)
        ensures
            r.mime_types == options.mime_types,
            r.filter_label == options.filter_label,
            r.multi,
    {
        PickOptions { multi: true, ..options }
    }
}

} // verus!
