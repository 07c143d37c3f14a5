//! iOS decisions around security-scoped bookmarks.
//!
//! A picked file URL is stored as its bookmark data.  Resolving a bookmark
//! needs the Objective-C runtime, which this crate does not reach: opening a
//! bookmarked file is refused, after the bookmark is checked to be text.

use vstd::prelude::*;
use vstd::utf8::{valid_utf8, encode_utf8};
use crate::error::AccessError;
use crate::text::{string_from, last_segment, last_segment_of, utf8_string};
use crate::token::{FileAccessToken, PermissionStatus, TokenInner, TokenView};

verus! {

/// The token for a picked file URL: its bookmark (here the URL's UTF-8
/// bytes), named by the URL's last path segment, MIME type unknown.
pub fn token_from_url(url: &str) -> (r: FileAccessToken)
    ensures
        r@ == (TokenView::Ios {
            bookmark: encode_utf8(url@),
            display_name: last_segment(url@, '/'),
            mime_type: None,
        }),
{
    let display_name = last_segment_of(url, '/');
    let bookmark = url.as_bytes_vec();
    FileAccessToken { inner: TokenInner::Ios { bookmark, display_name, mime_type: None } }
}

/// The tokens for picked file URLs, in order.
pub fn tokens_from_urls(urls: &[String]) -> (r: Vec<FileAccessToken>)
    ensures
        r@.len() == urls@.len(),
        forall|i: int| 0 <= i < r@.len() ==> (#[trigger] r@[i])@ == (TokenView::Ios {
            bookmark: encode_utf8(urls@[i]@),
            display_name: last_segment(urls@[i]@, '/'),
            mime_type: None,
        }),
{
    let mut out: Vec<FileAccessToken> = Vec::new();
    let n = urls.len();
    for i in 0..n
        invariant
            n == urls@.len(),
            out@.len() == i,
            forall|j: int| 0 <= j < i ==> (#[trigger] out@[j])@ == (TokenView::Ios {
                bookmark: encode_utf8(urls@[j]@),
                display_name: last_segment(urls@[j]@, '/'),
                mime_type: None,
            }),
    {
        out.push(token_from_url(urls[i].as_str()));
    }
    out
}

/// Why a bookmark cannot be opened: bookmark data that is not UTF-8 is
/// invalid; a valid one cannot be resolved without the Objective-C runtime.
pub fn bookmark_open_error(bookmark: &[u8]) -> (r: AccessError)
    ensures
        r matches AccessError::Platform { message } && message@ == if valid_utf8(bookmark@) {
            "iOS bookmark resolution requires Objective-C runtime"@
        } else {
            "invalid bookmark data"@
        },
{
    let v = vstd::slice::slice_to_vec(bookmark);
    match utf8_string(v) {
        Ok(_) => AccessError::Platform {
            message: string_from("iOS bookmark resolution requires Objective-C runtime"),
        },
        Err(_) => AccessError::Platform { message: string_from("invalid bookmark data") },
    }
}

/// Why a token cannot be opened (for reading or writing) on iOS: see
/// [`bookmark_open_error`]; a token of another platform is refused.
pub fn open_error(inner: &TokenInner) -> (r: AccessError)
    ensures
        r matches AccessError::Platform { message } && message@ == match inner@ {
            TokenView::Ios { bookmark, .. } => if valid_utf8(bookmark) {
                "iOS bookmark resolution requires Objective-C runtime"@
            } else {
                "invalid bookmark data"@
            },
            _ => "non-iOS token on iOS platform"@,
        },
{
    match inner {
        TokenInner::Ios { bookmark, .. } => bookmark_open_error(bookmark.as_slice()),
        _ => AccessError::Platform { message: string_from("non-iOS token on iOS platform") },
    }
}

/// Whether a bookmark can still be resolved: an empty one cannot (revoked);
/// for any other the status is unknown here.
pub fn check_bookmark(bookmark: &[u8]) -> (r: PermissionStatus)
    ensures
        r == if bookmark@.len() == 0 {
            PermissionStatus::Revoked
        } else {
            PermissionStatus::Unknown
        },
{
    if bookmark.len() == 0 {
        PermissionStatus::Revoked
    } else {
        PermissionStatus::Unknown
    }
}

/// The permission status of a token on iOS (see [`check_bookmark`]);
/// unknown for a token of another platform.
pub fn check_permission(inner: &TokenInner) -> (r: PermissionStatus)
    ensures
        r == match inner@ {
            TokenView::Ios { bookmark, .. } => if bookmark.len() == 0 {
                PermissionStatus::Revoked
            } else {
                PermissionStatus::Unknown
            },
            _ => PermissionStatus::Unknown,
        },
{
    match inner {
        TokenInner::Ios { bookmark, .. } => check_bookmark(bookmark.as_slice()),
        _ => PermissionStatus::Unknown,
    }
}

} // verus!
