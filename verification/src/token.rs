//! Capability tokens for accessing user-selected files.
//!
//! [`FileAccessToken`] is what every picker operation returns.  It holds the
//! platform-specific state needed to re-open a file: a filesystem path on
//! desktop, a content URI on Android, a security-scoped bookmark on iOS, the
//! file's bytes on WASM.
//!
//! A token is stored as text: the JSON of its variant (see
//! `token_format.rs`), encoded in URL-safe base64 without padding.  What
//! [`FileAccessToken::serialize`] writes, [`FileAccessToken::deserialize`]
//! reads back as the same token.

use vstd::prelude::*;
use base64::Engine;
use vstd::utf8::{valid_utf8, decode_utf8, encode_utf8};
use crate::error::{AccessError, TokenParseError};
use crate::text::{string_from, chars_of, string_of_chars, utf8_string, utf8_error_text};
use crate::token_format::{
    FieldKind, FieldView, FieldValue, opt_view, variant_json, json_string, entries_json, skip_ws,
    string_at, fields_at, fields_at_exec, skip_ws_exec, string_body_exec, skip_value, skip_value_exec, chars_eq_str, names_view, values_view, text_at, distinct_names,
    kinds_match, kind_of, lemma_fields_read_back, lemma_json_string_reads_back, write_json_string,
    write_opt_string, write_bytes, field_json,
};

verus! {

/// Status of the permission grant associated with a [`FileAccessToken`].
#[non_exhaustive]
#[derive(Debug, Clone, Copy, PartialEq, Eq, Structural)]
pub enum PermissionStatus {
    /// The token's permission is still valid and the file can be opened.
    Valid,
    /// The permission has been revoked by the user or the operating system.
    Revoked,
    /// The permission status cannot be determined on this platform.
    Unknown,
}

/// Platform-specific token data.
#[derive(Debug)]
pub enum TokenInner {
    /// Desktop file identified by filesystem path.
    Desktop { path: String, display_name: String },
    /// Android file identified by a content URI.
    Android { uri: String, display_name: String, mime_type: Option<String> },
    /// iOS file identified by a security-scoped bookmark.
    Ios { bookmark: Vec<u8>, display_name: String, mime_type: Option<String> },
    /// WASM file held entirely in memory.
    Wasm { data: Vec<u8>, name: String, mime_type: Option<String> },
}

/// The mathematical value of a token.
pub enum TokenView {
    Desktop { path: Seq<char>, display_name: Seq<char> },
    Android { uri: Seq<char>, display_name: Seq<char>, mime_type: Option<Seq<char>> },
    Ios { bookmark: Seq<u8>, display_name: Seq<char>, mime_type: Option<Seq<char>> },
    Wasm { data: Seq<u8>, name: Seq<char>, mime_type: Option<Seq<char>> },
}

impl View for TokenInner {
    type V = TokenView;

    open spec fn view(&self) -> TokenView {
        match self {
            TokenInner::Desktop { path, display_name } => TokenView::Desktop {
                path: path@,
                display_name: display_name@,
            },
            TokenInner::Android { uri, display_name, mime_type } => TokenView::Android {
                uri: uri@,
                display_name: display_name@,
                mime_type: opt_view(*mime_type),
            },
            TokenInner::Ios { bookmark, display_name, mime_type } => TokenView::Ios {
                bookmark: bookmark@,
                display_name: display_name@,
                mime_type: opt_view(*mime_type),
            },
            TokenInner::Wasm { data, name, mime_type } => TokenView::Wasm {
                data: data@,
                name: name@,
                mime_type: opt_view(*mime_type),
            },
        }
    }
}

/// A serializable capability token representing access to a user-selected
/// file.
#[derive(Debug)]
pub struct FileAccessToken {
    pub inner: TokenInner,
}

impl View for FileAccessToken {
    type V = TokenView;

    open spec fn view(&self) -> TokenView {
        self.inner@
    }
}

/// The user-visible name of the file.
pub open spec fn display_name_of(t: TokenView) -> Seq<char> {
    match t {
        TokenView::Desktop { display_name, .. } => display_name,
        TokenView::Android { display_name, .. } => display_name,
        TokenView::Ios { display_name, .. } => display_name,
        TokenView::Wasm { name, .. } => name,
    }
}

/// The MIME type of the file, if known; desktop tokens carry none.
pub open spec fn mime_type_of(t: TokenView) -> Option<Seq<char>> {
    match t {
        TokenView::Desktop { .. } => None,
        TokenView::Android { mime_type, .. } => mime_type,
        TokenView::Ios { mime_type, .. } => mime_type,
        TokenView::Wasm { mime_type, .. } => mime_type,
    }
}

/// The permission status of a token on desktop, given whether its path
/// exists: an existing path is valid, a missing one revoked; a token of
/// another platform is of unknown status.
pub open spec fn desktop_permission(t: TokenView, path_exists: bool) -> PermissionStatus {
    match t {
        TokenView::Desktop { .. } => if path_exists {
            PermissionStatus::Valid
        } else {
            PermissionStatus::Revoked
        },
        _ => PermissionStatus::Unknown,
    }
}

// ---------------------------------------------------------------------------
// The stored text
// ---------------------------------------------------------------------------

/// The variant's name in the stored text.
pub open spec fn variant_name(t: TokenView) -> Seq<char> {
    match t {
        TokenView::Desktop { .. } => "Desktop"@,
        TokenView::Android { .. } => "Android"@,
        TokenView::Ios { .. } => "Ios"@,
        TokenView::Wasm { .. } => "Wasm"@,
    }
}

/// The names of a variant's fields, in declaration order (variants by
/// index: Desktop, Android, Ios, Wasm).
pub open spec fn variant_field_names(v: int) -> Seq<Seq<char>> {
    if v == 0 {
        seq!["path"@, "display_name"@]
    } else if v == 1 {
        seq!["uri"@, "display_name"@, "mime_type"@]
    } else if v == 2 {
        seq!["bookmark"@, "display_name"@, "mime_type"@]
    } else {
        seq!["data"@, "name"@, "mime_type"@]
    }
}

/// The kinds of a variant's fields, in declaration order.
pub open spec fn variant_field_kinds(v: int) -> Seq<FieldKind> {
    if v == 0 {
        seq![FieldKind::Text, FieldKind::Text]
    } else if v == 1 {
        seq![FieldKind::Text, FieldKind::Text, FieldKind::OptText]
    } else if v == 2 {
        seq![FieldKind::Bytes, FieldKind::Text, FieldKind::OptText]
    } else {
        seq![FieldKind::Bytes, FieldKind::Text, FieldKind::OptText]
    }
}

pub open spec fn variant_index(t: TokenView) -> int {
    match t {
        TokenView::Desktop { .. } => 0,
        TokenView::Android { .. } => 1,
        TokenView::Ios { .. } => 2,
        TokenView::Wasm { .. } => 3,
    }
}

/// The variant that a name stands for.
pub open spec fn variant_of(name: Seq<char>) -> Option<int> {
    if name == "Desktop"@ {
        Some(0)
    } else if name == "Android"@ {
        Some(1)
    } else if name == "Ios"@ {
        Some(2)
    } else if name == "Wasm"@ {
        Some(3)
    } else {
        None
    }
}

/// A token's field values, in declaration order.
pub open spec fn token_fields(t: TokenView) -> Seq<FieldView> {
    match t {
        TokenView::Desktop { path, display_name } => seq![
            FieldView::Text(path),
            FieldView::Text(display_name),
        ],
        TokenView::Android { uri, display_name, mime_type } => seq![
            FieldView::Text(uri),
            FieldView::Text(display_name),
            FieldView::OptText(mime_type),
        ],
        TokenView::Ios { bookmark, display_name, mime_type } => seq![
            FieldView::Bytes(bookmark),
            FieldView::Text(display_name),
            FieldView::OptText(mime_type),
        ],
        TokenView::Wasm { data, name, mime_type } => seq![
            FieldView::Bytes(data),
            FieldView::Text(name),
            FieldView::OptText(mime_type),
        ],
    }
}

/// The token of variant `v` with the given field values.
pub open spec fn token_from_fields(v: int, vals: Seq<FieldView>) -> Option<TokenView> {
    if v == 0 && vals.len() == 2 {
        match (vals[0], vals[1]) {
            (FieldView::Text(path), FieldView::Text(display_name)) => Some(
                TokenView::Desktop { path, display_name },
            ),
            _ => None,
        }
    } else if v == 1 && vals.len() == 3 {
        match (vals[0], vals[1], vals[2]) {
            (FieldView::Text(uri), FieldView::Text(display_name), FieldView::OptText(mime_type)) => Some(
                TokenView::Android { uri, display_name, mime_type },
            ),
            _ => None,
        }
    } else if v == 2 && vals.len() == 3 {
        match (vals[0], vals[1], vals[2]) {
            (
                FieldView::Bytes(bookmark),
                FieldView::Text(display_name),
                FieldView::OptText(mime_type),
            ) => Some(TokenView::Ios { bookmark, display_name, mime_type }),
            _ => None,
        }
    } else if v == 3 && vals.len() == 3 {
        match (vals[0], vals[1], vals[2]) {
            (FieldView::Bytes(data), FieldView::Text(name), FieldView::OptText(mime_type)) => Some(
                TokenView::Wasm { data, name, mime_type },
            ),
            _ => None,
        }
    } else {
        None
    }
}

/// The JSON text of a token: `{"Variant":{"field":value,...}}`.
pub open spec fn token_json(t: TokenView) -> Seq<char> {
    variant_json(variant_name(t), variant_field_names(variant_index(t)), token_fields(t))
}

/// The token that a JSON text reads as, if any: an object with one key, a
/// variant's name, whose value holds that variant's fields (see
/// [`fields_at`]), with nothing but whitespace around.
#[verifier::opaque]
pub open spec fn parse_token_json(s: Seq<char>) -> Option<TokenView> {
    let p = skip_ws(s, 0);
    if 0 <= p < s.len() && s[p] == '{' {
        match string_at(s, p + 1) {
            Some((name, k)) => {
                let c = skip_ws(s, k);
                if 0 <= c < s.len() && s[c] == ':' {
                    match variant_of(name) {
                        Some(v) => match fields_at(
                            s,
                            c + 1,
                            variant_field_names(v),
                            variant_field_kinds(v),
                        ) {
                            Some((vals, e)) => {
                                let z = skip_ws(s, e);
                                if 0 <= z < s.len() && s[z] == '}' && skip_ws(s, z + 1) == s.len() {
                                    token_from_fields(v, vals)
                                } else {
                                    None
                                }
                            },
                            None => None,
                        },
                        None => None,
                    }
                } else {
                    None
                }
            },
            None => None,
        }
    } else {
        None
    }
}

/// The tag of a JSON text that is a token's shape but names no known
/// platform: an object with one key, not a variant's name, whose value is
/// any JSON value, with nothing but whitespace around.
#[verifier::opaque]
pub open spec fn unknown_tag(s: Seq<char>) -> Option<Seq<char>> {
    let p = skip_ws(s, 0);
    if 0 <= p < s.len() && s[p] == '{' {
        match string_at(s, p + 1) {
            Some((name, k)) => {
                let c = skip_ws(s, k);
                if 0 <= c < s.len() && s[c] == ':' && variant_of(name) is None {
                    match skip_value(s, c + 1) {
                        Some(e) => {
                            let z = skip_ws(s, e);
                            if 0 <= z < s.len() && s[z] == '}' && skip_ws(s, z + 1) == s.len() {
                                Some(name)
                            } else {
                                None
                            }
                        },
                        None => None,
                    }
                } else {
                    None
                }
            },
            None => None,
        }
    } else {
        None
    }
}

/// The symbol of a 6-bit value in the URL-safe base64 alphabet
/// (`A`-`Z`, `a`-`z`, `0`-`9`, `-`, `_`).
pub open spec fn base64_url_symbol(v: int) -> char {
    if v < 26 {
        (65 + v) as char
    } else if v < 52 {
        (97 + v - 26) as char
    } else if v < 62 {
        (48 + v - 52) as char
    } else if v == 62 {
        '-'
    } else {
        '_'
    }
}

/// The URL-safe base64 encoding of `bytes` without padding, as
/// `URL_SAFE_NO_PAD.encode` (base64 crate) writes it: each group of three
/// bytes becomes four symbols, a last group of one or two bytes two or
/// three symbols (its unused low bits zero).
pub open spec fn base64_url_text(b: Seq<u8>) -> Seq<char>
    decreases b.len(),
{
    if b.len() == 0 {
        Seq::empty()
    } else if b.len() == 1 {
        seq![base64_url_symbol(b[0] as int / 4), base64_url_symbol((b[0] as int % 4) * 16)]
    } else if b.len() == 2 {
        seq![
            base64_url_symbol(b[0] as int / 4),
            base64_url_symbol((b[0] as int % 4) * 16 + b[1] as int / 16),
            base64_url_symbol((b[1] as int % 16) * 4),
        ]
    } else {
        seq![
            base64_url_symbol(b[0] as int / 4),
            base64_url_symbol((b[0] as int % 4) * 16 + b[1] as int / 16),
            base64_url_symbol((b[1] as int % 16) * 4 + b[2] as int / 64),
            base64_url_symbol(b[2] as int % 64),
        ] + base64_url_text(b.subrange(3, b.len() as int))
    }
}

/// What `URL_SAFE_NO_PAD.decode` (base64 crate) gives for `text`: the
/// bytes, or the `Display` text of its `DecodeError`.
pub uninterp spec fn base64_url_bytes(text: Seq<char>) -> Result<Seq<u8>, Seq<char>>;

/// Whether base64 decoding gives back `bytes` for `text`.
pub open spec fn decodes_to(text: Seq<char>, bytes: Seq<u8>) -> bool {
    base64_url_bytes(text) == Ok::<Seq<u8>, Seq<char>>(bytes)
}

/// Encodes bytes with `base64::engine::general_purpose::URL_SAFE_NO_PAD`
/// (`Engine::encode`).
///
/// Claimed: the text is the encoding that [`base64_url_text`] states, and
/// the engine decodes that text back to the same bytes.
#[verifier::external_body]
fn base64_url_encode(bytes: &[u8]) -> (r: String)
    requires
        bytes@.len() <= usize::MAX / 2,
    ensures
        r@ == base64_url_text(bytes@),
        decodes_to(r@, bytes@),
{
    base64::engine::general_purpose::URL_SAFE_NO_PAD.encode(bytes)
}

/// Decodes text with `base64::engine::general_purpose::URL_SAFE_NO_PAD`
/// (`Engine::decode`), an error as its `Display` text.
///
/// Claimed: the result is the engine's decoding of the text (named).  The
/// engine takes no padding and no stray low bits, so it decodes exactly
/// the texts that are some bytes' encoding ([`base64_url_text`]), and the
/// bytes it gives are encoded as the text; its error text is not stated.
#[verifier::external_body]
fn base64_url_decode(text: &str) -> (r: Result<Vec<u8>, String>)
    ensures
        r matches Ok(b) ==> (base64_url_bytes(text@) matches Ok(d) && d == b@),
        r matches Err(m) ==> (base64_url_bytes(text@) matches Err(e) && e == m@),
        r matches Ok(b) ==> text@ == base64_url_text(b@),
        (exists|b: Seq<u8>| text@ == base64_url_text(b)) ==> r is Ok,
{
    base64::engine::general_purpose::URL_SAFE_NO_PAD.decode(text).map_err(|e| e.to_string())
}

/// Why a stored token could not be read.
pub enum ParseFailure {
    InvalidBase64(Seq<char>),
    InvalidJson(Seq<char>),
    UnknownVariant(Seq<char>),
}

pub open spec fn parse_error_view(e: TokenParseError) -> ParseFailure {
    match e {
        TokenParseError::InvalidBase64 { message } => ParseFailure::InvalidBase64(message@),
        TokenParseError::InvalidJson { message } => ParseFailure::InvalidJson(message@),
        TokenParseError::UnknownVariant { variant } => ParseFailure::UnknownVariant(variant@),
    }
}

/// The message of an `InvalidJson` error.
pub open spec fn invalid_token_message() -> Seq<char> {
    "payload is not a stored file access token"@
}

/// What reading a stored token gives: the base64 decoding (its error as
/// `InvalidBase64`), read as UTF-8 (its error as `InvalidBase64` too), read
/// as a token's JSON text; a well-formed text whose tag names no known
/// platform is `UnknownVariant` with that tag, any other failure
/// `InvalidJson`.
pub open spec fn read_stored_token(text: Seq<char>) -> Result<TokenView, ParseFailure> {
    match base64_url_bytes(text) {
        Err(m) => Err(ParseFailure::InvalidBase64(m)),
        Ok(bytes) => if valid_utf8(bytes) {
            match parse_token_json(decode_utf8(bytes)) {
                Some(t) => Ok(t),
                None => Err(json_payload_error(decode_utf8(bytes))),
            }
        } else {
            Err(ParseFailure::InvalidBase64(utf8_error_text(bytes)))
        },
    }
}

/// Appends `"name":`.
fn write_key(out: &mut String, name: &str)
    ensures
        final(out)@ == old(out)@ + json_string(name@) + seq![':'],
{
    write_json_string(out, name);
    crate::text::push_char(out, ':');
}

/// Appends the opening `{"Variant":{` of a token's text.
fn write_open(out: &mut String, variant: &str)
    ensures
        final(out)@ == old(out)@ + seq!['{'] + json_string(variant@) + seq![':', '{'],
{
    let ghost o = out@;
    crate::text::push_char(out, '{');
    write_json_string(out, variant);
    crate::text::push_char(out, ':');
    crate::text::push_char(out, '{');
    assert(out@ =~= o + seq!['{'] + json_string(variant@) + seq![':', '{']);
}

proof fn lemma_entries_two(names: Seq<Seq<char>>, vals: Seq<FieldView>)
    requires
        names.len() == 2,
        vals.len() == 2,
    ensures
        entries_json(names, vals) == json_string(names[0]) + seq![':'] + field_json(vals[0]) + seq![','] + json_string(names[1]) + seq![':'] + field_json(vals[1]),
{
    assert(entries_json(names.drop_first(), vals.drop_first()) == json_string(names[1]) + seq![':'] + field_json(vals[1]));
    assert(entries_json(names, vals) =~= json_string(names[0]) + seq![':'] + field_json(vals[0]) + seq![','] + json_string(names[1]) + seq![':'] + field_json(vals[1]));
}

proof fn lemma_entries_three(names: Seq<Seq<char>>, vals: Seq<FieldView>)
    requires
        names.len() == 3,
        vals.len() == 3,
    ensures
        entries_json(names, vals) == json_string(names[0]) + seq![':'] + field_json(vals[0]) + seq![','] + json_string(names[1]) + seq![':'] + field_json(vals[1]) + seq![','] + json_string(names[2]) + seq![':'] + field_json(vals[2]),
{
    lemma_entries_two(names.drop_first(), vals.drop_first());
    assert(entries_json(names, vals) =~= json_string(names[0]) + seq![':'] + field_json(vals[0]) + seq![','] + json_string(names[1]) + seq![':'] + field_json(vals[1]) + seq![','] + json_string(names[2]) + seq![':'] + field_json(vals[2]));
}

fn desktop_json(path: &String, display_name: &String) -> (r: String)
    ensures
        r@ == token_json(TokenView::Desktop { path: path@, display_name: display_name@ }),
{
    let ghost t = TokenView::Desktop { path: path@, display_name: display_name@ };
    let mut out = String::new();
    write_open(&mut out, "Desktop");
    write_key(&mut out, "path");
    write_json_string(&mut out, path.as_str());
    crate::text::push_char(&mut out, ',');
    write_key(&mut out, "display_name");
    write_json_string(&mut out, display_name.as_str());
    crate::text::push_char(&mut out, '}');
    crate::text::push_char(&mut out, '}');
    proof {
        lemma_entries_two(variant_field_names(0), token_fields(t));
        assert(out@ =~= token_json(t));
    }
    out
}

fn android_json(uri: &String, display_name: &String, mime_type: &Option<String>) -> (r: String)
    ensures
        r@ == token_json(
            TokenView::Android { uri: uri@, display_name: display_name@, mime_type: opt_view(*mime_type) },
        ),
{
    let ghost t = TokenView::Android { uri: uri@, display_name: display_name@, mime_type: opt_view(*mime_type) };
    let mut out = String::new();
    write_open(&mut out, "Android");
    write_key(&mut out, "uri");
    write_json_string(&mut out, uri.as_str());
    crate::text::push_char(&mut out, ',');
    write_key(&mut out, "display_name");
    write_json_string(&mut out, display_name.as_str());
    crate::text::push_char(&mut out, ',');
    write_key(&mut out, "mime_type");
    write_opt_string(&mut out, mime_type);
    crate::text::push_char(&mut out, '}');
    crate::text::push_char(&mut out, '}');
    proof {
        lemma_entries_three(variant_field_names(1), token_fields(t));
        assert(out@ =~= token_json(t));
    }
    out
}

fn ios_json(bookmark: &Vec<u8>, display_name: &String, mime_type: &Option<String>) -> (r: String)
    ensures
        r@ == token_json(
            TokenView::Ios { bookmark: bookmark@, display_name: display_name@, mime_type: opt_view(*mime_type) },
        ),
{
    let ghost t = TokenView::Ios { bookmark: bookmark@, display_name: display_name@, mime_type: opt_view(*mime_type) };
    let mut out = String::new();
    write_open(&mut out, "Ios");
    write_key(&mut out, "bookmark");
    write_bytes(&mut out, bookmark.as_slice());
    crate::text::push_char(&mut out, ',');
    write_key(&mut out, "display_name");
    write_json_string(&mut out, display_name.as_str());
    crate::text::push_char(&mut out, ',');
    write_key(&mut out, "mime_type");
    write_opt_string(&mut out, mime_type);
    crate::text::push_char(&mut out, '}');
    crate::text::push_char(&mut out, '}');
    proof {
        lemma_entries_three(variant_field_names(2), token_fields(t));
        assert(out@ =~= token_json(t));
    }
    out
}

fn wasm_json(data: &Vec<u8>, name: &String, mime_type: &Option<String>) -> (r: String)
    ensures
        r@ == token_json(
            TokenView::Wasm { data: data@, name: name@, mime_type: opt_view(*mime_type) },
        ),
{
    let ghost t = TokenView::Wasm { data: data@, name: name@, mime_type: opt_view(*mime_type) };
    let mut out = String::new();
    write_open(&mut out, "Wasm");
    write_key(&mut out, "data");
    write_bytes(&mut out, data.as_slice());
    crate::text::push_char(&mut out, ',');
    write_key(&mut out, "name");
    write_json_string(&mut out, name.as_str());
    crate::text::push_char(&mut out, ',');
    write_key(&mut out, "mime_type");
    write_opt_string(&mut out, mime_type);
    crate::text::push_char(&mut out, '}');
    crate::text::push_char(&mut out, '}');
    proof {
        lemma_entries_three(variant_field_names(3), token_fields(t));
        assert(out@ =~= token_json(t));
    }
    out
}

/// Writes a token's JSON text.
fn token_json_text(inner: &TokenInner) -> (r: String)
    ensures
        r@ == token_json(inner@),
{
    match inner {
        TokenInner::Desktop { path, display_name } => desktop_json(path, display_name),
        TokenInner::Android { uri, display_name, mime_type } => android_json(uri, display_name, mime_type),
        TokenInner::Ios { bookmark, display_name, mime_type } => ios_json(bookmark, display_name, mime_type),
        TokenInner::Wasm { data, name, mime_type } => wasm_json(data, name, mime_type),
    }
}

fn field_spec_desktop() -> (r: (Vec<&'static str>, Vec<FieldKind>))
    ensures
        names_view(r.0@) == variant_field_names(0),
        r.1@ == variant_field_kinds(0),
{
    let names = vec!["path", "display_name"];
    let kinds = vec![FieldKind::Text, FieldKind::Text];
    assert(names_view(names@) =~= variant_field_names(0));
    assert(kinds@ =~= variant_field_kinds(0));
    (names, kinds)
}

fn field_spec_android() -> (r: (Vec<&'static str>, Vec<FieldKind>))
    ensures
        names_view(r.0@) == variant_field_names(1),
        r.1@ == variant_field_kinds(1),
{
    let names = vec!["uri", "display_name", "mime_type"];
    let kinds = vec![FieldKind::Text, FieldKind::Text, FieldKind::OptText];
    assert(names_view(names@) =~= variant_field_names(1));
    assert(kinds@ =~= variant_field_kinds(1));
    (names, kinds)
}

fn field_spec_ios() -> (r: (Vec<&'static str>, Vec<FieldKind>))
    ensures
        names_view(r.0@) == variant_field_names(2),
        r.1@ == variant_field_kinds(2),
{
    let names = vec!["bookmark", "display_name", "mime_type"];
    let kinds = vec![FieldKind::Bytes, FieldKind::Text, FieldKind::OptText];
    assert(names_view(names@) =~= variant_field_names(2));
    assert(kinds@ =~= variant_field_kinds(2));
    (names, kinds)
}

fn field_spec_wasm() -> (r: (Vec<&'static str>, Vec<FieldKind>))
    ensures
        names_view(r.0@) == variant_field_names(3),
        r.1@ == variant_field_kinds(3),
{
    let names = vec!["data", "name", "mime_type"];
    let kinds = vec![FieldKind::Bytes, FieldKind::Text, FieldKind::OptText];
    assert(names_view(names@) =~= variant_field_names(3));
    assert(kinds@ =~= variant_field_kinds(3));
    (names, kinds)
}

/// The error for a JSON payload that is not a token's text.
pub open spec fn json_payload_error(json: Seq<char>) -> ParseFailure {
    match unknown_tag(json) {
        Some(tag) => ParseFailure::UnknownVariant(tag),
        None => ParseFailure::InvalidJson(invalid_token_message()),
    }
}

/// Reads a token from a JSON payload: the token, or `UnknownVariant` for a
/// well-formed text with an unknown tag, or `InvalidJson`.
fn token_from_json(json: &str) -> (r: Result<TokenInner, TokenParseError>)
    ensures
        r matches Ok(t) ==> parse_token_json(json@) == Some(t@),
        r matches Err(e) ==> parse_token_json(json@) is None && parse_error_view(e) == json_payload_error(
            json@,
        ),
{
    let cs = chars_of(json);
    match parse_token_text(&cs) {
        TokenText::Token(inner) => Ok(inner),
        TokenText::UnknownTag(tag) => Err(
            TokenParseError::UnknownVariant { variant: string_of_chars(tag.as_slice()) },
        ),
        TokenText::Invalid => Err(
            TokenParseError::InvalidJson {
                message: string_from("payload is not a stored file access token"),
            },
        ),
    }
}

/// Builds the token of variant `v` from its field values.
fn token_from_values(v: usize, vals: Vec<FieldValue>) -> (r: Option<TokenInner>)
    requires
        v < 4,
    ensures
        r matches Some(t) ==> token_from_fields(v as int, values_view(vals@)) == Some(t@),
        r is None ==> token_from_fields(v as int, values_view(vals@)) is None,
{
    let ghost sv = values_view(vals@);
    let n = vals.len();
    let mut vals = vals;
    if v == 0 {
        if n != 2 {
            return None;
        }
        let b = vals.pop();
        let a = vals.pop();
        match (a, b) {
            (Some(FieldValue::Text(path)), Some(FieldValue::Text(display_name))) => Some(
                TokenInner::Desktop { path, display_name },
            ),
            _ => None,
        }
    } else {
        if n != 3 {
            return None;
        }
        let c = vals.pop();
        let b = vals.pop();
        let a = vals.pop();
        if v == 1 {
            match (a, b, c) {
                (
                    Some(FieldValue::Text(uri)),
                    Some(FieldValue::Text(display_name)),
                    Some(FieldValue::OptText(mime_type)),
                ) => Some(TokenInner::Android { uri, display_name, mime_type }),
                _ => None,
            }
        } else if v == 2 {
            match (a, b, c) {
                (
                    Some(FieldValue::Bytes(bookmark)),
                    Some(FieldValue::Text(display_name)),
                    Some(FieldValue::OptText(mime_type)),
                ) => Some(TokenInner::Ios { bookmark, display_name, mime_type }),
                _ => None,
            }
        } else {
            match (a, b, c) {
                (
                    Some(FieldValue::Bytes(data)),
                    Some(FieldValue::Text(name)),
                    Some(FieldValue::OptText(mime_type)),
                ) => Some(TokenInner::Wasm { data, name, mime_type }),
                _ => None,
            }
        }
    }
}

/// What a JSON text reads as: a token, a well-formed text whose tag names
/// no known platform, or neither.
pub enum TokenText {
    Token(TokenInner),
    UnknownTag(Vec<char>),
    Invalid,
}

/// Reads the rest of a text whose tag `name` names no known platform: any
/// JSON value from `i`, then the closing brace (see [`unknown_tag`]).
fn unknown_tag_text(s: &Vec<char>, i: usize, name: Vec<char>) -> (r: TokenText)
    requires
        i <= s@.len(),
    ensures
        r matches TokenText::UnknownTag(n) ==> n@ == name@ && (skip_value(s@, i as int) matches Some(e) && {
            let z = skip_ws(s@, e);
            0 <= z < s@.len() && s@[z] == '}' && skip_ws(s@, z + 1) == s@.len()
        }),
        r is Invalid ==> !(skip_value(s@, i as int) matches Some(e) && {
            let z = skip_ws(s@, e);
            0 <= z < s@.len() && s@[z] == '}' && skip_ws(s@, z + 1) == s@.len()
        }),
        !(r is Token),
{
    let e = match skip_value_exec(s, i) {
        Some(e) => e,
        None => {
            return TokenText::Invalid;
        },
    };
    if e > s.len() {
        return TokenText::Invalid;
    }
    let z = skip_ws_exec(s, e);
    if z >= s.len() || s[z] != '}' {
        return TokenText::Invalid;
    }
    if skip_ws_exec(s, z + 1) != s.len() {
        return TokenText::Invalid;
    }
    TokenText::UnknownTag(name)
}

/// Reads a token from its JSON text (see [`parse_token_json`] and
/// [`unknown_tag`]).
fn parse_token_text(s: &Vec<char>) -> (r: TokenText)
    ensures
        r matches TokenText::Token(t) ==> parse_token_json(s@) == Some(t@),
        r matches TokenText::UnknownTag(n) ==> parse_token_json(s@) is None && unknown_tag(s@) == Some(n@),
        r is Invalid ==> parse_token_json(s@) is None && unknown_tag(s@) is None,
{
    proof {
        reveal(parse_token_json);
        reveal(unknown_tag);
    }
    let p = skip_ws_exec(s, 0);
    if p >= s.len() || s[p] != '{' {
        return TokenText::Invalid;
    }
    let q = skip_ws_exec(s, p + 1);
    if q >= s.len() || s[q] != '"' {
        return TokenText::Invalid;
    }
    let (name, k) = match string_body_exec(s, q + 1) {
        Some(x) => x,
        None => {
            return TokenText::Invalid;
        },
    };
    let c = skip_ws_exec(s, k);
    if c >= s.len() || s[c] != ':' {
        return TokenText::Invalid;
    }
    let v: usize = if chars_eq_str(&name, "Desktop") {
        0
    } else if chars_eq_str(&name, "Android") {
        1
    } else if chars_eq_str(&name, "Ios") {
        2
    } else if chars_eq_str(&name, "Wasm") {
        3
    } else {
        return unknown_tag_text(s, c + 1, name);
    };
    assert(variant_of(name@) == Some(v as int));
    let (names, kinds) = if v == 0 {
        field_spec_desktop()
    } else if v == 1 {
        field_spec_android()
    } else if v == 2 {
        field_spec_ios()
    } else {
        field_spec_wasm()
    };
    let (vals, e) = match fields_at_exec(s, c + 1, names.as_slice(), kinds.as_slice()) {
        Some(x) => x,
        None => {
            return TokenText::Invalid;
        },
    };
    let z = skip_ws_exec(s, e);
    if z >= s.len() || s[z] != '}' {
        return TokenText::Invalid;
    }
    if skip_ws_exec(s, z + 1) != s.len() {
        return TokenText::Invalid;
    }
    match token_from_values(v, vals) {
        Some(t) => TokenText::Token(t),
        None => TokenText::Invalid,
    }
}

proof fn lemma_variant_tables(t: TokenView)
    ensures
        variant_of(variant_name(t)) == Some(variant_index(t)),
        distinct_names(variant_field_names(variant_index(t))),
        kinds_match(variant_field_kinds(variant_index(t)), token_fields(t)),
        variant_field_names(variant_index(t)).len() == token_fields(t).len(),
        token_from_fields(variant_index(t), token_fields(t)) == Some(t),
{
    reveal_strlit("Desktop");
    assert("Desktop"@ =~= seq!['D', 'e', 's', 'k', 't', 'o', 'p']);
    reveal_strlit("Android");
    assert("Android"@ =~= seq!['A', 'n', 'd', 'r', 'o', 'i', 'd']);
    reveal_strlit("Ios");
    assert("Ios"@ =~= seq!['I', 'o', 's']);
    reveal_strlit("Wasm");
    assert("Wasm"@ =~= seq!['W', 'a', 's', 'm']);
    reveal_strlit("path");
    assert("path"@ =~= seq!['p', 'a', 't', 'h']);
    reveal_strlit("display_name");
    assert("display_name"@ =~= seq!['d', 'i', 's', 'p', 'l', 'a', 'y', '_', 'n', 'a', 'm', 'e']);
    reveal_strlit("uri");
    assert("uri"@ =~= seq!['u', 'r', 'i']);
    reveal_strlit("mime_type");
    assert("mime_type"@ =~= seq!['m', 'i', 'm', 'e', '_', 't', 'y', 'p', 'e']);
    reveal_strlit("bookmark");
    assert("bookmark"@ =~= seq!['b', 'o', 'o', 'k', 'm', 'a', 'r', 'k']);
    reveal_strlit("data");
    assert("data"@ =~= seq!['d', 'a', 't', 'a']);
    reveal_strlit("name");
    assert("name"@ =~= seq!['n', 'a', 'm', 'e']);
    assert("Android"@ != "Desktop"@) by { assert("Android"@[0] != "Desktop"@[0]); }
    assert("path"@ != "display_name"@);
    assert("uri"@ != "display_name"@);
    assert("uri"@ != "mime_type"@);
    assert("display_name"@ != "mime_type"@);
    assert("bookmark"@ != "display_name"@);
    assert("bookmark"@ != "mime_type"@);
    assert("data"@ != "name"@) by { assert("data"@[0] != "name"@[0]); }
    assert("data"@ != "mime_type"@);
    assert("name"@ != "mime_type"@);
}

/// A token's JSON text reads back as the token.
pub proof fn lemma_token_json_reads_back(t: TokenView)
    ensures
        parse_token_json(token_json(t)) == Some(t),
{
    reveal(parse_token_json);
    lemma_variant_tables(t);
    let v = variant_index(t);
    crate::token_format::lemma_variant_reads_back(
        variant_name(t),
        variant_field_names(v),
        variant_field_kinds(v),
        token_fields(t),
    );
}

/// What is stored is read back: a text that base64-decodes to the UTF-8
/// bytes of a token's JSON text (as every text that
/// [`FileAccessToken::serialize`] hands out does) reads back as that token.
pub proof fn lemma_stored_token_reads_back(text: Seq<char>, t: TokenView)
    requires
        decodes_to(text, encode_utf8(token_json(t))),
    ensures
        read_stored_token(text) == Ok::<TokenView, ParseFailure>(t),
{
    vstd::utf8::encode_utf8_valid_utf8(token_json(t));
    vstd::utf8::encode_utf8_decode_utf8(token_json(t));
    lemma_token_json_reads_back(t);
}

impl FileAccessToken {
    /// Returns the user-visible display name of the file (typically the
    /// filename).
    pub fn display_name(&self) -> (r: &str)
        ensures
            r@ == display_name_of(self@),
    {
        match &self.inner {
            TokenInner::Desktop { display_name, .. } => display_name.as_str(),
            TokenInner::Android { display_name, .. } => display_name.as_str(),
            TokenInner::Ios { display_name, .. } => display_name.as_str(),
            TokenInner::Wasm { name, .. } => name.as_str(),
        }
    }

    /// Returns the MIME type of the file, if known.  Desktop returns `None`.
    pub fn mime_type(&self) -> (r: Option<&str>)
        ensures
            r is None <==> mime_type_of(self@) is None,
            r matches Some(m) ==> mime_type_of(self@) == Some(m@),
    {
        let o = match &self.inner {
            TokenInner::Desktop { .. } => None,
            TokenInner::Android { mime_type, .. } => mime_type.as_ref(),
            TokenInner::Ios { mime_type, .. } => mime_type.as_ref(),
            TokenInner::Wasm { mime_type, .. } => mime_type.as_ref(),
        };
        match o {
            Some(m) => Some(m.as_str()),
            None => None,
        }
    }

    /// Checks whether the permission grant for this file is still valid on
    /// desktop, where a token is a path: given whether the path exists (the
    /// caller probes the filesystem), an existing path is `Valid`, a missing
    /// one `Revoked`; a token of another platform is `Unknown`.
    pub fn check_permission(&self, path_exists: bool) -> (r: PermissionStatus)
        ensures
            r == desktop_permission(self@, path_exists),
    {
        match &self.inner {
            TokenInner::Desktop { .. } => if path_exists {
                PermissionStatus::Valid
            } else {
                PermissionStatus::Revoked
            },
            _ => PermissionStatus::Unknown,
        }
    }

    /// The file to open for reading on desktop: the token's path; a token of
    /// another platform is refused with a platform error.
    pub fn open_read(&self) -> (r: Result<String, AccessError>)
        ensures
            r matches Ok(p) ==> self@ matches TokenView::Desktop { path, .. } && p@ == path,
            r is Err <==> !(self@ is Desktop),
            r matches Err(e) ==> e matches AccessError::Platform { message } && message@
                == "non-desktop token on desktop platform"@,
    {
        desktop_path(&self.inner)
    }

    /// The file to open for writing on desktop (created if missing, not
    /// truncated): the token's path; a token of another platform is refused
    /// with a platform error.
    pub fn open_write(&self) -> (r: Result<String, AccessError>)
        ensures
            r matches Ok(p) ==> self@ matches TokenView::Desktop { path, .. } && p@ == path,
            r is Err <==> !(self@ is Desktop),
            r matches Err(e) ==> e matches AccessError::Platform { message } && message@
                == "non-desktop token on desktop platform"@,
    {
        desktop_path(&self.inner)
    }

    /// Serializes the token to a URL-safe base64 string for storage: the
    /// UTF-8 bytes of its JSON text (see `token_format.rs`), encoded.  Should
    /// the text be too long to encode, the encoding of `{}` stands in, which
    /// does not read back as a token.
    pub fn serialize(&self) -> (r: String)
        ensures
            encode_utf8(token_json(self@)).len() <= usize::MAX / 2 ==> r@ == base64_url_text(
                encode_utf8(token_json(self@)),
            ) && decodes_to(r@, encode_utf8(token_json(self@))),
            encode_utf8(token_json(self@)).len() > usize::MAX / 2 ==> r@ == base64_url_text(
                seq![123u8, 125u8],
            ),
    {
        let json = token_json_text(&self.inner);
        let bytes = json.as_str().as_bytes();
        if bytes.len() <= usize::MAX / 2 {
            base64_url_encode(bytes)
        } else {
            let empty_object: Vec<u8> = vec![123u8, 125u8];
            assert(empty_object@ =~= seq![123u8, 125u8]);
            base64_url_encode(empty_object.as_slice())
        }
    }

    /// Deserializes a token from a string previously returned by
    /// [`serialize`](Self::serialize): a text that is not the URL-safe,
    /// unpadded base64 encoding of some bytes, and a payload that is not
    /// UTF-8, are `InvalidBase64` (with the decoder's message); a well-formed
    /// JSON payload whose tag names no known platform is `UnknownVariant`
    /// with that tag; any other payload that is not a token's JSON text is
    /// `InvalidJson`.
    pub fn deserialize(s: &str) -> (r: Result<FileAccessToken, TokenParseError>)
        ensures
            !(exists|b: Seq<u8>| s@ == base64_url_text(b)) ==> r matches Err(
                TokenParseError::InvalidBase64 { .. },
            ),
            r matches Ok(t) ==> read_stored_token(s@) == Ok::<TokenView, ParseFailure>(t@),
            r matches Err(e) ==> read_stored_token(s@) == Err::<TokenView, ParseFailure>(parse_error_view(e)),
    {
        let bytes = match base64_url_decode(s) {
            Ok(b) => b,
            Err(m) => {
                return Err(TokenParseError::InvalidBase64 { message: m });
            },
        };
        let json = match utf8_string(bytes) {
            Ok(j) => j,
            Err(m) => {
                return Err(TokenParseError::InvalidBase64 { message: m });
            },
        };
        match token_from_json(json.as_str()) {
            Ok(inner) => Ok(FileAccessToken { inner }),
            Err(e) => Err(e),
        }
    }

    /// The token's stored form, as text: the same text as
    /// [`serialize`](Self::serialize).
    pub fn to_string(&self) -> (r: String)
        ensures
            encode_utf8(token_json(self@)).len() <= usize::MAX / 2 ==> r@ == base64_url_text(
                encode_utf8(token_json(self@)),
            ) && decodes_to(r@, encode_utf8(token_json(self@))),
            encode_utf8(token_json(self@)).len() > usize::MAX / 2 ==> r@ == base64_url_text(
                seq![123u8, 125u8],
            ),
    {
        self.serialize()
    }
}

impl std::str::FromStr for FileAccessToken {
    type Err = TokenParseError;

    fn from_str(s: &str) -> (r: Result<FileAccessToken, TokenParseError>)
        ensures
            !(exists|b: Seq<u8>| s@ == base64_url_text(b)) ==> r matches Err(
                TokenParseError::InvalidBase64 { .. },
            ),
            r matches Ok(t) ==> read_stored_token(s@) == Ok::<TokenView, ParseFailure>(t@),
            r matches Err(e) ==> read_stored_token(s@) == Err::<TokenView, ParseFailure>(parse_error_view(e)),
    {
        FileAccessToken::deserialize(s)
    }
}

/// The path of a desktop token; other tokens are refused.
fn desktop_path(inner: &TokenInner) -> (r: Result<String, AccessError>)
    ensures
        r matches Ok(p) ==> inner@ matches TokenView::Desktop { path, .. } && p@ == path,
        r is Err <==> !(inner@ is Desktop),
        r matches Err(e) ==> e matches AccessError::Platform { message } && message@
            == "non-desktop token on desktop platform"@,
{
    match inner {
        TokenInner::Desktop { path, .. } => Ok(path.clone()),
        _ => Err(AccessError::Platform { message: string_from("non-desktop token on desktop platform") }),
    }
}

} // verus!
