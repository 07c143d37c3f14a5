//! Desktop (Windows, macOS, Linux, BSD) decisions around the native dialog.
//!
//! The dialog itself, the filesystem and the zenity subprocess are driven by
//! the caller; this module decides what the dialog is given (its file-type
//! filter), what a picked path becomes, whether the picker is disabled, and
//! what happens when the dialog gives nothing back.

use vstd::prelude::*;
use crate::api::{PickOptions, SaveOptions};
use crate::error::PickerError;
use crate::platform::filters::{
    mime_to_extension, valid_extension, mime_types_to_extensions, mime_to_extension_of,
    is_valid_extension,
};
use crate::text::{string_from, eq_str};
use crate::token::{FileAccessToken, TokenInner, TokenView};

verus! {

/// The file-type filter handed to the native dialog.
#[derive(Debug)]
pub struct DialogFilter {
    /// The filter's label in the dialog.
    pub label: String,
    /// The extensions it admits; empty means no filter (all files shown).
    pub extensions: Vec<String>,
}

pub open spec fn strings_view(v: Seq<String>) -> Seq<Seq<char>> {
    v.map_values(|s: String| s@)
}

/// The extensions, in order, that the native dialogs accept.
pub open spec fn keep_valid(exts: Seq<Seq<char>>) -> Seq<Seq<char>> {
    exts.filter(|e: Seq<char>| valid_extension(e))
}

/// The extensions of the given MIME types that the native dialogs accept,
/// in order.
pub open spec fn filter_extensions(mimes: Seq<Seq<char>>) -> Seq<Seq<char>> {
    keep_valid(mimes.map_values(|m: Seq<char>| mime_to_extension(m)))
}

/// Keeps, in order, the extensions that the native dialogs accept.  On
/// Windows an extension with a dot or a slash would make a filter that
/// matches no file, so such extensions are dropped.
pub fn retain_valid_extensions(exts: Vec<String>) -> (r: Vec<String>)
    ensures
        strings_view(r@) == keep_valid(strings_view(exts@)),
{
    let mut out: Vec<String> = Vec::new();
    let n = exts.len();
    for i in 0..n
        invariant
            n == exts@.len(),
            strings_view(out@) == keep_valid(strings_view(exts@).take(i as int)),
    {
        let ghost before = strings_view(out@);
        let ghost pre = strings_view(exts@).take(i as int);
        let ghost e = exts@[i as int]@;
        assert(strings_view(exts@).take(i + 1) =~= pre.push(e));
        proof {
            pre.lemma_filter_push(e, |x: Seq<char>| valid_extension(x));
        }
        if is_valid_extension(exts[i].as_str()) {
            out.push(exts[i].clone());
            assert(strings_view(out@) =~= before.push(e));
        }
    }
    assert(strings_view(exts@).take(n as int) =~= strings_view(exts@));
    out
}

/// The filter for an open dialog: the caller's label (`"Files"` if none) and
/// the valid extensions of the caller's MIME types.
pub fn open_dialog_filter(options: &PickOptions) -> (r: DialogFilter)
    ensures
        r.label@ == match options.filter_label {
            Some(l) => l@,
            None => "Files"@,
        },
        strings_view(r.extensions@) == filter_extensions(strings_view(options.mime_types@)),
{
    let label = match &options.filter_label {
        Some(l) => l.clone(),
        None => string_from("Files"),
    };
    let extensions = if options.mime_types.len() != 0 {
        let mapped = mime_types_to_extensions(options.mime_types.as_slice());
        assert(strings_view(mapped@) =~= strings_view(options.mime_types@).map_values(
            |m: Seq<char>| mime_to_extension(m),
        ));
        retain_valid_extensions(mapped)
    } else {
        assert(strings_view(options.mime_types@).map_values(|m: Seq<char>| mime_to_extension(m))
            =~= Seq::<Seq<char>>::empty());
        proof {
            reveal(Seq::filter);
        }
        Vec::new()
    };
    assert(strings_view(extensions@) == filter_extensions(strings_view(options.mime_types@)));
    DialogFilter { label, extensions }
}

/// The filter for a save dialog: labelled `"File"`, with the caller's MIME
/// type's extension when it is a valid one.
pub fn save_dialog_filter(options: &SaveOptions) -> (r: DialogFilter)
    ensures
        r.label@ == "File"@,
        strings_view(r.extensions@) == match options.mime_type {
            Some(m) => filter_extensions(seq![m@]),
            None => Seq::empty(),
        },
{
    let extensions = match &options.mime_type {
        Some(m) => {
            let e = mime_to_extension_of(m.as_str());
            let one = vec![e];
            assert(strings_view(one@) =~= seq![m@].map_values(|x: Seq<char>| mime_to_extension(x)));
            retain_valid_extensions(one)
        },
        None => Vec::new(),
    };
    proof {
        if options.mime_type is None {
            assert(strings_view(extensions@) =~= Seq::<Seq<char>>::empty());
        }
    }
    DialogFilter { label: string_from("File"), extensions }
}

/// The message of the error that a disabled picker answers with.
pub open spec fn backend_disabled_message() -> Seq<char> {
    "file picker disabled via LOKI_FILE_ACCESS_BACKEND=none. On Linux, the XDG Desktop Portal or zenity must be available. Unset LOKI_FILE_ACCESS_BACKEND or set it to \"auto\" to re-enable."@
}

/// The Linux escape hatch: given the value of `LOKI_FILE_ACCESS_BACKEND`
/// (`None` when it is unset or not Unicode), `none` disables the picker with
/// a platform error; any other value (`auto`, the default) lets it run.
pub fn check_backend_env(backend: Option<&str>) -> (r: Result<(), PickerError>)
    ensures
        r is Err <==> (backend matches Some(v) && v@ == "none"@),
        r matches Err(e) ==> e matches PickerError::Platform { message } && message@
            == backend_disabled_message(),
{
    match backend {
        Some(v) => if eq_str(v, "none") {
            Err(
                PickerError::Platform {
                    message: string_from(
                        "file picker disabled via LOKI_FILE_ACCESS_BACKEND=none. On Linux, the XDG Desktop Portal or zenity must be available. Unset LOKI_FILE_ACCESS_BACKEND or set it to \"auto\" to re-enable.",
                    ),
                },
            )
        } else {
            Ok(())
        },
        None => Ok(()),
    }
}

/// The display name of a picked file: its file name (as the platform's path
/// rules give it, when it is Unicode), or `"unnamed"`.
pub open spec fn display_name_from(file_name: Option<Seq<char>>) -> Seq<char> {
    match file_name {
        Some(n) => n,
        None => "unnamed"@,
    }
}

/// The display name of a picked file, from the final component of its path
/// (`None` when the path has no final component or it is not Unicode).
pub fn file_name_from_path(file_name: Option<String>) -> (r: String)
    ensures
        r@ == display_name_from(match file_name {
            Some(n) => Some(n@),
            None => None,
        }),
{
    match file_name {
        Some(n) => n,
        None => string_from("unnamed"),
    }
}

/// A file picked in a desktop dialog, as the caller hands it over: its path
/// and the final component of that path (see [`file_name_from_path`]).
#[derive(Debug)]
pub struct PickedPath {
    pub path: String,
    pub file_name: Option<String>,
}

pub open spec fn picked_token(p: PickedPath) -> TokenView {
    TokenView::Desktop {
        path: p.path@,
        display_name: display_name_from(match p.file_name {
            Some(n) => Some(n@),
            None => None,
        }),
    }
}

/// The token for a picked file.
pub fn token_from_picked(p: PickedPath) -> (r: FileAccessToken)
    ensures
        r@ == picked_token(p),
{
    let display_name = file_name_from_path(p.file_name);
    FileAccessToken { inner: TokenInner::Desktop { path: p.path, display_name } }
}

/// The tokens for picked files, in order.
pub fn tokens_from_picked(ps: Vec<PickedPath>) -> (r: Vec<FileAccessToken>)
    ensures
        r@.len() == ps@.len(),
        forall|i: int| 0 <= i < r@.len() ==> (#[trigger] r@[i])@ == picked_token(ps@[i]),
{
    let ghost orig = ps@;
    let mut ps = ps;
    let mut out: Vec<FileAccessToken> = Vec::new();
    let mut rev: Vec<FileAccessToken> = Vec::new();
    while ps.len() > 0
        invariant
            ps@ == orig.take(ps@.len() as int),
            ps@.len() <= orig.len(),
            rev@.len() == orig.len() - ps@.len(),
            forall|j: int| 0 <= j < rev@.len() ==> (#[trigger] rev@[j])@ == picked_token(orig[orig.len() - 1 - j]),
        decreases ps@.len(),
    {
        let p = ps.pop().unwrap();
        assert(ps@ =~= orig.take(ps@.len() as int));
        rev.push(token_from_picked(p));
    }
    while rev.len() > 0
        invariant
            out@.len() + rev@.len() == orig.len(),
            forall|j: int| 0 <= j < rev@.len() ==> (#[trigger] rev@[j])@ == picked_token(orig[orig.len() - 1 - j]),
            forall|j: int| 0 <= j < out@.len() ==> (#[trigger] out@[j])@ == picked_token(orig[j]),
        decreases rev@.len(),
    {
        let t = rev.pop().unwrap();
        out.push(t);
    }
    out
}

/// What to do once the native dialog has answered a pick.
#[derive(Debug)]
pub enum AfterDialog<T> {
    /// The pick is over, with this result.
    Done(T),
    /// The dialog gave nothing back and zenity is available: ask zenity.
    UseZenity,
}

/// After a single-file (or save) dialog: a picked file becomes its token;
/// no answer means the user cancelled, unless (on Linux) the desktop portal
/// is missing and zenity can stand in.
pub fn after_single_dialog(picked: Option<PickedPath>, zenity_available: bool) -> (r: AfterDialog<Option<FileAccessToken>>)
    ensures
        match picked {
            Some(p) => r matches AfterDialog::Done(Some(t)) && t@ == picked_token(p),
            None => if zenity_available {
                r is UseZenity
            } else {
                r matches AfterDialog::Done(None)
            },
        },
{
    match picked {
        Some(p) => AfterDialog::Done(Some(token_from_picked(p))),
        None => if zenity_available {
            AfterDialog::UseZenity
        } else {
            AfterDialog::Done(None)
        },
    }
}

/// After a multi-file dialog: the picked files become their tokens; no
/// answer means the user cancelled (no tokens), unless zenity can stand in.
pub fn after_multi_dialog(picked: Option<Vec<PickedPath>>, zenity_available: bool) -> (r: AfterDialog<Vec<FileAccessToken>>)
    ensures
        match picked {
            Some(ps) => r matches AfterDialog::Done(ts) && ts@.len() == ps@.len() && (forall|i: int|
                0 <= i < ts@.len() ==> (#[trigger] ts@[i])@ == picked_token(ps@[i])),
            None => if zenity_available {
                r is UseZenity
            } else {
                r matches AfterDialog::Done(ts) && ts@.len() == 0
            },
        },
{
    match picked {
        Some(ps) => AfterDialog::Done(tokens_from_picked(ps)),
        None => if zenity_available {
            AfterDialog::UseZenity
        } else {
            AfterDialog::Done(Vec::new())
        },
    }
}

/// Keeping the valid extensions drops exactly the invalid ones: every
/// valid extension is kept, and everything kept is a valid one of the
/// given extensions.
pub proof fn lemma_keep_valid(exts: Seq<Seq<char>>)
    ensures
        forall|i: int|
            0 <= i < exts.len() && valid_extension(exts[i]) ==> #[trigger] keep_valid(exts).contains(exts[i]),
        forall|j: int|
            0 <= j < keep_valid(exts).len() ==> valid_extension(#[trigger] keep_valid(exts)[j])
                && exts.contains(keep_valid(exts)[j]),
{
    broadcast use vstd::seq_lib::group_filter_ensures;
    assert forall|j: int| 0 <= j < keep_valid(exts).len() implies valid_extension(
        #[trigger] keep_valid(exts)[j],
    ) && exts.contains(keep_valid(exts)[j]) by {
        let p = |e: Seq<char>| valid_extension(e);
        assert(keep_valid(exts).contains(keep_valid(exts)[j]));
        exts.lemma_filter_contains_rev(p, keep_valid(exts)[j]);
    }
}

/// Every extension that a dialog's filter is given is one that the native
/// dialogs accept.
pub proof fn lemma_filter_extensions_valid(mimes: Seq<Seq<char>>, i: int)
    requires
        0 <= i < filter_extensions(mimes).len(),
    ensures
        valid_extension(filter_extensions(mimes)[i]),
{
    broadcast use vstd::seq_lib::group_filter_ensures;
    let exts = mimes.map_values(|m: Seq<char>| mime_to_extension(m));
    assert(valid_extension(exts.filter(|e: Seq<char>| valid_extension(e))[i]));
}

} // verus!
