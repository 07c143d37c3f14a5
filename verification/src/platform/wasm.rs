//! WASM decisions around `<input type="file">`.
//!
//! The DOM is driven by the caller; this module decides what the input is
//! given, what a read file becomes, and what the in-memory tokens allow.

use vstd::prelude::*;
use crate::api::SaveOptions;
use crate::error::AccessError;
use crate::text::{string_from, clone_opt};
use crate::token::{FileAccessToken, PermissionStatus, TokenInner, TokenView};
use crate::platform::desktop::strings_view;

verus! {

/// The strings joined by commas.
pub open spec fn join_commas(v: Seq<Seq<char>>) -> Seq<char>
    decreases v.len(),
{
    if v.len() == 0 {
        Seq::empty()
    } else if v.len() == 1 {
        v[0]
    } else {
        join_commas(v.drop_last()) + ","@ + v.last()
    }
}

/// One MIME type joins to itself.
pub proof fn lemma_join_commas_one(m: Seq<char>)
    ensures
        join_commas(seq![m]) == m,
{
}

/// Two non-empty runs of MIME types join to their two joins with one comma
/// between them: every two neighbouring types are separated by exactly one
/// comma, and nothing else is added.
pub proof fn lemma_join_commas_concat(a: Seq<Seq<char>>, b: Seq<Seq<char>>)
    requires
        a.len() > 0,
        b.len() > 0,
    ensures
        join_commas(a + b) == join_commas(a) + ","@ + join_commas(b),
    decreases b.len(),
{
    assert((a + b).drop_last() =~= a + b.drop_last());
    assert((a + b).last() == b.last());
    if b.len() == 1 {
        assert(a + b.drop_last() =~= a);
    } else {
        lemma_join_commas_concat(a, b.drop_last());
        assert(join_commas(a + b) =~= join_commas(a) + ","@ + join_commas(b));
    }
}

/// The input's `accept` attribute: the MIME types joined by commas; none
/// (all files) when there are no MIME types.
pub fn accept_attribute(mime_types: &[String]) -> (r: Option<String>)
    ensures
        mime_types@.len() == 0 ==> r is None,
        mime_types@.len() > 0 ==> (r matches Some(a) && a@ == join_commas(strings_view(mime_types@))),
{
    let n = mime_types.len();
    if n == 0 {
        return None;
    }
    let mut out = String::new();
    for i in 0..n
        invariant
            n == mime_types@.len(),
            out@ == join_commas(strings_view(mime_types@).take(i as int)),
    {
        let ghost pre = strings_view(mime_types@).take(i as int);
        let ghost nxt = strings_view(mime_types@).take(i + 1);
        assert(nxt.drop_last() =~= pre);
        if i > 0 {
            out.append(",");
        }
        out.append(mime_types[i].as_str());
        assert(out@ =~= join_commas(nxt));
    }
    assert(strings_view(mime_types@).take(n as int) =~= strings_view(mime_types@));
    Some(out)
}

/// The token for a file read from the input: its name, its bytes, and its
/// MIME type (none when the browser reports an empty one).
pub fn token_from_file(name: String, mime: String, data: Vec<u8>) -> (r: FileAccessToken)
    ensures
        r@ == (TokenView::Wasm {
            data: data@,
            name: name@,
            mime_type: if mime@.len() == 0 {
                None
            } else {
                Some(mime@)
            },
        }),
{
    let mime_type = if mime.as_str().unicode_len() == 0 {
        None
    } else {
        Some(mime)
    };
    FileAccessToken { inner: TokenInner::Wasm { data, name, mime_type } }
}

/// The token for a save on WASM, where there is no save dialog: an empty
/// in-memory buffer named by the suggested name (`"download"` if none), with
/// the caller's MIME type.
pub fn save_token(options: &SaveOptions) -> (r: FileAccessToken)
    ensures
        r.inner matches TokenInner::Wasm { data, name, mime_type } && data@.len() == 0 && name@
            == match options.suggested_name {
            Some(n) => n@,
            None => "download"@,
        } && mime_type == options.mime_type,
{
    let name = match &options.suggested_name {
        Some(n) => n.clone(),
        None => string_from("download"),
    };
    FileAccessToken {
        inner: TokenInner::Wasm { data: Vec::new(), name, mime_type: clone_opt(&options.mime_type) },
    }
}

/// The bytes to read from for a token on WASM (a copy of the in-memory
/// buffer; writes go through [`write_at`]); a token of another platform is
/// refused.
pub fn token_data(inner: &TokenInner) -> (r: Result<Vec<u8>, AccessError>)
    ensures
        r matches Ok(d) ==> inner@ matches TokenView::Wasm { data, .. } && d@ == data,
        r is Err <==> !(inner@ is Wasm),
        r matches Err(e) ==> e matches AccessError::Platform { message } && message@
            == "non-WASM token on WASM platform"@,
{
    match inner {
        TokenInner::Wasm { data, .. } => Ok(vstd::slice::slice_to_vec(data.as_slice())),
        _ => Err(AccessError::Platform { message: string_from("non-WASM token on WASM platform") }),
    }
}

/// `data` after `bytes` are written at `pos`: the bytes from `pos` on are
/// replaced (the buffer grows past its end as needed), and a gap between
/// the old end and `pos` is filled with zeros.
pub open spec fn written_at(data: Seq<u8>, pos: int, bytes: Seq<u8>) -> Seq<u8> {
    let n = if data.len() < pos + bytes.len() {
        pos + bytes.len()
    } else {
        data.len() as int
    };
    Seq::new(
        n as nat,
        |k: int|
            if pos <= k < pos + bytes.len() {
                bytes[k - pos]
            } else if k < data.len() {
                data[k]
            } else {
                0u8
            },
    )
}

/// Writing bytes at a position never shrinks the buffer: it ends at the
/// old end or at the end of what was written, whichever is later.  The
/// written range holds the bytes, every old byte outside it is kept, and a
/// gap between the old end and the position reads as zeros.
pub proof fn lemma_written_at(data: Seq<u8>, pos: int, bytes: Seq<u8>)
    requires
        0 <= pos,
    ensures
        written_at(data, pos, bytes).len() >= data.len(),
        written_at(data, pos, bytes).len() >= pos + bytes.len(),
        written_at(data, pos, bytes).len() == data.len() || written_at(data, pos, bytes).len() == pos
            + bytes.len(),
        forall|k: int|
            0 <= k < bytes.len() ==> #[trigger] written_at(data, pos, bytes)[pos + k] == bytes[k],
        forall|k: int|
            0 <= k < data.len() && (k < pos || k >= pos + bytes.len()) ==> #[trigger] written_at(
                data,
                pos,
                bytes,
            )[k] == data[k],
        forall|k: int|
            data.len() <= k < pos ==> #[trigger] written_at(data, pos, bytes)[k] == 0u8,
{
    let w = written_at(data, pos, bytes);
    assert forall|k: int| 0 <= k < bytes.len() implies #[trigger] written_at(data, pos, bytes)[pos + k]
        == bytes[k] by {
        assert(w[pos + k] == bytes[(pos + k) - pos]);
    }
}

/// Writes `bytes` into `data` at `pos` (see [`written_at`]).
fn write_into(data: &mut Vec<u8>, pos: usize, bytes: &[u8])
    requires
        pos + bytes@.len() <= usize::MAX,
    ensures
        final(data)@ == written_at(old(data)@, pos as int, bytes@),
{
    let ghost d0 = data@;
    while data.len() < pos
        invariant
            d0.len() <= data@.len(),
            data@.len() <= if d0.len() < pos { pos as int } else { d0.len() as int },
            forall|k: int| 0 <= k < d0.len() ==> data@[k] == d0[k],
            forall|k: int| d0.len() <= k < data@.len() ==> data@[k] == 0u8,
        decreases pos - data@.len(),
    {
        data.push(0u8);
    }
    let n = bytes.len();
    for i in 0..n
        invariant
            n == bytes@.len(),
            pos + n <= usize::MAX,
            data@.len() == if d0.len() < pos + i { pos + i } else { d0.len() as int },
            data@.len() >= pos,
            forall|k: int|
                0 <= k < data@.len() ==> data@[k] == if pos <= k < pos + i {
                    bytes@[k - pos]
                } else if k < d0.len() {
                    d0[k]
                } else {
                    0u8
                },
    {
        let k = pos + i;
        if k < data.len() {
            data.set(k, bytes[i]);
        } else {
            data.push(bytes[i]);
        }
    }
    assert(data@ =~= written_at(d0, pos as int, bytes@));
}

/// Writes `bytes` at `pos` into the in-memory buffer of a token on WASM
/// (see [`written_at`]); its name and MIME type stay.  A token of another
/// platform is refused and left as it was.
pub fn write_at(inner: &mut TokenInner, pos: usize, bytes: &[u8]) -> (r: Result<(), AccessError>)
    requires
        pos + bytes@.len() <= usize::MAX,
    ensures
        match old(inner)@ {
            TokenView::Wasm { data, name, mime_type } => r is Ok && final(inner)@ == (TokenView::Wasm {
                data: written_at(data, pos as int, bytes@),
                name,
                mime_type,
            }),
            _ => *final(inner) == *old(inner) && (r matches Err(e) && e matches AccessError::Platform {
                message,
            } && message@ == "non-WASM token on WASM platform"@),
        },
{
    match inner {
        TokenInner::Wasm { data, .. } => {
            write_into(data, pos, bytes);
            Ok(())
        },
        _ => Err(AccessError::Platform { message: string_from("non-WASM token on WASM platform") }),
    }
}

/// WASM tokens are valid while the page is loaded; a token of another
/// platform is of unknown status.
pub fn check_permission(inner: &TokenInner) -> (r: PermissionStatus)
    ensures
        r == match inner@ {
            TokenView::Wasm { .. } => PermissionStatus::Valid,
            _ => PermissionStatus::Unknown,
        },
{
    match inner {
        TokenInner::Wasm { .. } => PermissionStatus::Valid,
        _ => PermissionStatus::Unknown,
    }
}

} // verus!
