//! Error types of the public API.
//!
//! - [`PickerError`]: the platform file-picker dialog could not be presented.
//! - [`AccessError`]: a previously granted file could not be opened.
//! - [`TokenParseError`]: a stored token could not be read back.
//!
//! Cancelling a dialog is not an error: the pickers answer `Ok(None)` or an
//! empty list for it.

use vstd::prelude::*;
use crate::text::string_from;

verus! {

/// Errors that can occur when presenting a file-picker dialog.
#[non_exhaustive]
#[derive(Debug)]
pub enum PickerError {
    /// The platform returned an error from the native file-picker API.
    Platform { message: String },
    /// The current platform does not support the requested operation.
    Unsupported { operation: String },
    /// An internal synchronisation error occurred (e.g. a poisoned mutex).
    Internal { message: String },
}

/// The text that describes a [`PickerError`].
pub open spec fn picker_error_text(e: PickerError) -> Seq<char> {
    match e {
        PickerError::Platform { message } => "platform file-picker error: "@ + message@,
        PickerError::Unsupported { operation } => "operation not supported on this platform: "@
            + operation@,
        PickerError::Internal { message } => "internal synchronisation error: "@ + message@,
    }
}

impl PickerError {
    /// Human-readable description of the error.
    pub fn to_string(&self) -> (r: String)
        ensures
            r@ == picker_error_text(*self),
    {
        match self {
            PickerError::Platform { message } => {
                let mut s = string_from("platform file-picker error: ");
                s.append(message.as_str());
                s
            },
            PickerError::Unsupported { operation } => {
                let mut s = string_from("operation not supported on this platform: ");
                s.append(operation.as_str());
                s
            },
            PickerError::Internal { message } => {
                let mut s = string_from("internal synchronisation error: ");
                s.append(message.as_str());
                s
            },
        }
    }
}

/// Errors that can occur when opening or accessing a previously granted file.
#[non_exhaustive]
#[derive(Debug)]
pub enum AccessError {
    /// The permission grant for this file has been revoked by the user or OS.
    PermissionRevoked,
    /// An I/O error occurred while reading from or writing to the file.
    Io { source: std::io::Error },
    /// The file descriptor or handle returned by the platform was invalid.
    InvalidDescriptor,
    /// The platform returned an error when attempting to open the file.
    Platform { message: String },
}

/// `std::io::Error`, carried by [`AccessError::Io`].
#[verifier::external_type_specification]
#[verifier::external_body]
pub struct ExIoError(std::io::Error);

/// Describes an I/O error by its `Display` implementation
/// (`std::io::Error::to_string`).
///
/// Nothing is claimed of the text: for an error from the operating system it
/// comes from the system's own message table.
#[verifier::external_body]
fn io_error_text(e: &std::io::Error) -> String {
    e.to_string()
}

impl From<std::io::Error> for AccessError {
    fn from(source: std::io::Error) -> (r: AccessError) {
        AccessError::Io { source }
    }
}

impl vstd::std_specs::convert::FromSpecImpl<std::io::Error> for AccessError {
    open spec fn obeys_from_spec() -> bool {
        true
    }

    open spec fn from_spec(source: std::io::Error) -> AccessError {
        AccessError::Io { source }
    }
}

impl AccessError {
    /// Human-readable description of the error.
    pub fn to_string(&self) -> (r: String)
        ensures
            match *self {
                AccessError::PermissionRevoked => r@ == "file access permission has been revoked"@,
                AccessError::Io { .. } => exists|t: Seq<char>| r@ == "I/O error: "@ + t,
                AccessError::InvalidDescriptor => r@
                    == "invalid file descriptor returned by platform"@,
                AccessError::Platform { message } => r@ == "platform access error: "@ + message@,
            },
    {
        match self {
            AccessError::PermissionRevoked => string_from("file access permission has been revoked"),
            AccessError::Io { source } => {
                let mut s = string_from("I/O error: ");
                let t = io_error_text(source);
                s.append(t.as_str());
                assert(s@ == "I/O error: "@ + t@);
                s
            },
            AccessError::InvalidDescriptor => string_from(
                "invalid file descriptor returned by platform",
            ),
            AccessError::Platform { message } => {
                let mut s = string_from("platform access error: ");
                s.append(message.as_str());
                s
            },
        }
    }
}

/// Errors that can occur when deserializing a stored token.
#[non_exhaustive]
#[derive(Debug)]
pub enum TokenParseError {
    /// The base64 encoding of the token is invalid.
    InvalidBase64 { message: String },
    /// The JSON payload inside the token is malformed.
    InvalidJson { message: String },
    /// The token contains an unrecognised platform variant.
    UnknownVariant { variant: String },
}

/// The text that describes a [`TokenParseError`].
pub open spec fn token_parse_error_text(e: TokenParseError) -> Seq<char> {
    match e {
        TokenParseError::InvalidBase64 { message } => "invalid base64 encoding: "@ + message@,
        TokenParseError::InvalidJson { message } => "invalid JSON in token: "@ + message@,
        TokenParseError::UnknownVariant { variant } => "unknown token variant: "@ + variant@,
    }
}

impl TokenParseError {
    /// Human-readable description of the error.
    pub fn to_string(&self) -> (r: String)
        ensures
            r@ == token_parse_error_text(*self),
    {
        match self {
            TokenParseError::InvalidBase64 { message } => {
                let mut s = string_from("invalid base64 encoding: ");
                s.append(message.as_str());
                s
            },
            TokenParseError::InvalidJson { message } => {
                let mut s = string_from("invalid JSON in token: ");
                s.append(message.as_str());
                s
            },
            TokenParseError::UnknownVariant { variant } => {
                let mut s = string_from("unknown token variant: ");
                s.append(variant.as_str());
                s
            },
        }
    }
}

} // verus!
