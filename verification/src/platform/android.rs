//! Android decisions around the Storage Access Framework.
//!
//! The intents, the `ContentResolver` and the persisted URI grants are
//! reached through JNI by the caller; this module decides what a picked URI
//! becomes, which token a platform operation applies to, and what a
//! persisted grant means for a token.

use vstd::prelude::*;
use crate::api::SaveOptions;
use crate::error::AccessError;
use crate::text::{string_from, last_segment, last_segment_of, clone_opt};
use crate::token::{FileAccessToken, PermissionStatus, TokenInner, TokenView};

verus! {

/// The token for a URI picked to open: named by the URI's last path
/// segment, MIME type unknown.
pub fn token_from_picked_uri(uri: String) -> (r: FileAccessToken)
    ensures
        r@ == (TokenView::Android { uri: uri@, display_name: last_segment(uri@, '/'), mime_type: None }),
{
    let display_name = last_segment_of(uri.as_str(), '/');
    FileAccessToken { inner: TokenInner::Android { uri, display_name, mime_type: None } }
}

/// The token for a URI picked to save to: named by the suggested name
/// (`"untitled"` if none), with the caller's MIME type.
pub fn token_from_saved_uri(uri: String, options: &SaveOptions) -> (r: FileAccessToken)
    ensures
        r.inner matches TokenInner::Android { uri: u, display_name, mime_type } && u == uri
            && display_name@ == match options.suggested_name {
            Some(n) => n@,
            None => "untitled"@,
        } && mime_type == options.mime_type,
{
    let display_name = match &options.suggested_name {
        Some(n) => n.clone(),
        None => string_from("untitled"),
    };
    FileAccessToken {
        inner: TokenInner::Android { uri, display_name, mime_type: clone_opt(&options.mime_type) },
    }
}

/// The permission status of a token on Android, given the URIs of the
/// persisted grants as far as they could be listed (`complete` when the
/// whole list was read): an Android token whose URI is among them is valid;
/// otherwise revoked when the list is complete, and unknown when listing
/// stopped early.  A token of another platform is of unknown status.
pub fn check_permission(inner: &TokenInner, persisted: &[String], complete: bool) -> (r: PermissionStatus)
    ensures
        match inner@ {
            TokenView::Android { uri, .. } => if (exists|i: int|
                0 <= i < persisted@.len() && (#[trigger] persisted@[i])@ == uri) {
                r == PermissionStatus::Valid
            } else if complete {
                r == PermissionStatus::Revoked
            } else {
                r == PermissionStatus::Unknown
            },
            _ => r == PermissionStatus::Unknown,
        },
{
    match inner {
        TokenInner::Android { uri, .. } => if contains_string(persisted, uri) {
            PermissionStatus::Valid
        } else if complete {
            PermissionStatus::Revoked
        } else {
            PermissionStatus::Unknown
        },
        _ => PermissionStatus::Unknown,
    }
}

/// Whether `s` is among `list`.
fn contains_string(list: &[String], s: &String) -> (r: bool)
    ensures
        r == (exists|i: int| 0 <= i < list@.len() && (#[trigger] list@[i])@ == s@),
{
    let n = list.len();
    for i in 0..n
        invariant
            n == list@.len(),
            forall|j: int| 0 <= j < i ==> (#[trigger] list@[j])@ != s@,
    {
        if list[i] == *s {
            assert((list@[i as int])@ == s@);
            return true;
        }
    }
    false
}

/// The content URI to open for a token on Android; a token of another
/// platform is refused with a platform error.
pub fn content_uri(inner: &TokenInner) -> (r: Result<String, AccessError>)
    ensures
        r matches Ok(u) ==> inner@ matches TokenView::Android { uri, .. } && u@ == uri,
        r is Err <==> !(inner@ is Android),
        r matches Err(e) ==> e matches AccessError::Platform { message } && message@
            == "non-Android token on Android platform"@,
{
    match inner {
        TokenInner::Android { uri, .. } => Ok(uri.clone()),
        _ => Err(AccessError::Platform { message: string_from("non-Android token on Android platform") }),
    }
}

/// The error for a failed platform step while opening a content URI:
/// `"<step> failed"`.
pub fn access_err(ctx: &str) -> (r: AccessError)
    ensures
        r matches AccessError::Platform { message } && message@ == ctx@ + " failed"@,
{
    let mut message = string_from(ctx);
    message.append(" failed");
    AccessError::Platform { message }
}

} // verus!
