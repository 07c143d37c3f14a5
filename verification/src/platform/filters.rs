//! MIME-type-to-extension mapping and extension validation for the
//! native dialogs' file-type filters.

use vstd::prelude::*;
use crate::text::{eq_str, string_from, string_of_chars, chars_of};

verus! {

/// The extension that the table of well-known MIME types gives `m`, if `m`
/// is listed.
pub open spec fn known_extension(m: Seq<char>) -> Option<Seq<char>> {
    if m == "text/plain"@ {
        Some("txt"@)
    } else if m == "text/html"@ {
        Some("html"@)
    } else if m == "text/css"@ {
        Some("css"@)
    } else if m == "text/csv"@ {
        Some("csv"@)
    } else if m == "text/markdown"@ || m == "text/x-markdown"@ {
        Some("md"@)
    } else if m == "text/rtf"@ || m == "application/rtf"@ {
        Some("rtf"@)
    } else if m == "application/json"@ {
        Some("json"@)
    } else if m == "application/xml"@ || m == "text/xml"@ {
        Some("xml"@)
    } else if m == "application/pdf"@ {
        Some("pdf"@)
    } else if m == "application/zip"@ {
        Some("zip"@)
    } else if m == "application/x-tar"@ {
        Some("tar"@)
    } else if m == "application/gzip"@ || m == "application/x-gzip"@ {
        Some("gz"@)
    } else if m == "application/x-bzip2"@ {
        Some("bz2"@)
    } else if m == "application/x-7z-compressed"@ {
        Some("7z"@)
    } else if m == "image/png"@ {
        Some("png"@)
    } else if m == "image/jpeg"@ {
        Some("jpg"@)
    } else if m == "image/gif"@ {
        Some("gif"@)
    } else if m == "image/svg+xml"@ {
        Some("svg"@)
    } else if m == "image/webp"@ {
        Some("webp"@)
    } else if m == "image/tiff"@ {
        Some("tiff"@)
    } else if m == "image/bmp"@ {
        Some("bmp"@)
    } else if m == "audio/mpeg"@ {
        Some("mp3"@)
    } else if m == "audio/wav"@ || m == "audio/x-wav"@ {
        Some("wav"@)
    } else if m == "audio/ogg"@ {
        Some("ogg"@)
    } else if m == "audio/flac"@ {
        Some("flac"@)
    } else if m == "video/mp4"@ {
        Some("mp4"@)
    } else if m == "video/webm"@ {
        Some("webm"@)
    } else if m == "video/x-matroska"@ {
        Some("mkv"@)
    } else if m == "application/msword"@ {
        Some("doc"@)
    } else if m == "application/vnd.ms-excel"@ {
        Some("xls"@)
    } else if m == "application/vnd.ms-powerpoint"@ {
        Some("ppt"@)
    } else if m == "application/vnd.openxmlformats-officedocument.wordprocessingml.document"@ {
        Some("docx"@)
    } else if m == "application/vnd.openxmlformats-officedocument.spreadsheetml.sheet"@ {
        Some("xlsx"@)
    } else if m == "application/vnd.openxmlformats-officedocument.presentationml.presentation"@ {
        Some("pptx"@)
    } else if m == "application/vnd.oasis.opendocument.text"@ {
        Some("odt"@)
    } else if m == "application/vnd.oasis.opendocument.spreadsheet"@ {
        Some("ods"@)
    } else if m == "application/vnd.oasis.opendocument.presentation"@ {
        Some("odp"@)
    } else if m == "application/epub+zip"@ {
        Some("epub"@)
    } else {
        None
    }
}

/// The characters of `s` before the first `c` (all of `s` if there is none).
pub open spec fn before_char(s: Seq<char>, c: char) -> Seq<char>
    decreases s.len(),
{
    if s.len() == 0 {
        s
    } else if s[0] == c {
        Seq::empty()
    } else {
        seq![s[0]] + before_char(s.drop_first(), c)
    }
}

/// The characters of `s` after the first `c`, if `s` holds a `c`.
pub open spec fn after_char(s: Seq<char>, c: char) -> Option<Seq<char>>
    decreases s.len(),
{
    if s.len() == 0 {
        None
    } else if s[0] == c {
        Some(s.drop_first())
    } else {
        after_char(s.drop_first(), c)
    }
}

/// The subtype of a MIME type: the part between the first `/` and the next
/// `/` (or the end); the whole text when it holds no `/`.
pub open spec fn mime_subtype(m: Seq<char>) -> Seq<char> {
    match after_char(m, '/') {
        Some(rest) => before_char(rest, '/'),
        None => m,
    }
}

/// The filter extension for a MIME type: the table's entry, or else the
/// subtype.
pub open spec fn mime_to_extension(m: Seq<char>) -> Seq<char> {
    match known_extension(m) {
        Some(e) => e,
        None => mime_subtype(m),
    }
}

/// A character that a native filter extension must not hold: a dot, a slash,
/// a backslash, or ASCII whitespace.
pub open spec fn is_forbidden_in_extension(c: char) -> bool {
    c == '.' || c == '/' || c == '\\' || c == ' ' || c == '\t' || c == '\n' || c == '\x0C'
        || c == '\r'
}

/// An extension that the native dialogs accept: not empty, and free of dots,
/// slashes and ASCII whitespace.  (Every byte of a non-ASCII character is
/// at least 0x80, so the test is the same over bytes and over characters.)
pub open spec fn valid_extension(e: Seq<char>) -> bool {
    e.len() > 0 && forall|i: int| 0 <= i < e.len() ==> !is_forbidden_in_extension(#[trigger] e[i])
}

/// The extensions, in order, for the given MIME types.
pub open spec fn extensions_of(mimes: Seq<Seq<char>>) -> Seq<Seq<char>> {
    mimes.map_values(|m: Seq<char>| mime_to_extension(m))
}

/// The table's entry for `mime`, if `mime` is listed.
fn known_extension_of(mime: &str) -> (r: Option<String>)
    ensures
        r matches Some(e) ==> known_extension(mime@) == Some(e@),
        r is None ==> known_extension(mime@) is None,
{
    if eq_str(mime, "text/plain") {
        Some(string_from("txt"))
    } else if eq_str(mime, "text/html") {
        Some(string_from("html"))
    } else if eq_str(mime, "text/css") {
        Some(string_from("css"))
    } else if eq_str(mime, "text/csv") {
        Some(string_from("csv"))
    } else if eq_str(mime, "text/markdown") || eq_str(mime, "text/x-markdown") {
        Some(string_from("md"))
    } else if eq_str(mime, "text/rtf") || eq_str(mime, "application/rtf") {
        Some(string_from("rtf"))
    } else if eq_str(mime, "application/json") {
        Some(string_from("json"))
    } else if eq_str(mime, "application/xml") || eq_str(mime, "text/xml") {
        Some(string_from("xml"))
    } else if eq_str(mime, "application/pdf") {
        Some(string_from("pdf"))
    } else if eq_str(mime, "application/zip") {
        Some(string_from("zip"))
    } else if eq_str(mime, "application/x-tar") {
        Some(string_from("tar"))
    } else if eq_str(mime, "application/gzip") || eq_str(mime, "application/x-gzip") {
        Some(string_from("gz"))
    } else if eq_str(mime, "application/x-bzip2") {
        Some(string_from("bz2"))
    } else if eq_str(mime, "application/x-7z-compressed") {
        Some(string_from("7z"))
    } else if eq_str(mime, "image/png") {
        Some(string_from("png"))
    } else if eq_str(mime, "image/jpeg") {
        Some(string_from("jpg"))
    } else if eq_str(mime, "image/gif") {
        Some(string_from("gif"))
    } else if eq_str(mime, "image/svg+xml") {
        Some(string_from("svg"))
    } else if eq_str(mime, "image/webp") {
        Some(string_from("webp"))
    } else if eq_str(mime, "image/tiff") {
        Some(string_from("tiff"))
    } else if eq_str(mime, "image/bmp") {
        Some(string_from("bmp"))
    } else if eq_str(mime, "audio/mpeg") {
        Some(string_from("mp3"))
    } else if eq_str(mime, "audio/wav") || eq_str(mime, "audio/x-wav") {
        Some(string_from("wav"))
    } else if eq_str(mime, "audio/ogg") {
        Some(string_from("ogg"))
    } else if eq_str(mime, "audio/flac") {
        Some(string_from("flac"))
    } else if eq_str(mime, "video/mp4") {
        Some(string_from("mp4"))
    } else if eq_str(mime, "video/webm") {
        Some(string_from("webm"))
    } else if eq_str(mime, "video/x-matroska") {
        Some(string_from("mkv"))
    } else if eq_str(mime, "application/msword") {
        Some(string_from("doc"))
    } else if eq_str(mime, "application/vnd.ms-excel") {
        Some(string_from("xls"))
    } else if eq_str(mime, "application/vnd.ms-powerpoint") {
        Some(string_from("ppt"))
    } else if eq_str(mime, "application/vnd.openxmlformats-officedocument.wordprocessingml.document") {
        Some(string_from("docx"))
    } else if eq_str(mime, "application/vnd.openxmlformats-officedocument.spreadsheetml.sheet") {
        Some(string_from("xlsx"))
    } else if eq_str(mime, "application/vnd.openxmlformats-officedocument.presentationml.presentation") {
        Some(string_from("pptx"))
    } else if eq_str(mime, "application/vnd.oasis.opendocument.text") {
        Some(string_from("odt"))
    } else if eq_str(mime, "application/vnd.oasis.opendocument.spreadsheet") {
        Some(string_from("ods"))
    } else if eq_str(mime, "application/vnd.oasis.opendocument.presentation") {
        Some(string_from("odp"))
    } else if eq_str(mime, "application/epub+zip") {
        Some(string_from("epub"))
    } else {
        None
    }
}

/// Position of the first `c` in `s` from `start` on, or `s.len()`.
fn find_char(s: &Vec<char>, start: usize, c: char) -> (r: usize)
    requires
        start <= s@.len(),
    ensures
        start <= r <= s@.len(),
        forall|j: int| start <= j < r ==> s@[j] != c,
        r < s@.len() ==> s@[r as int] == c,
{
    let mut i = start;
    while i < s.len()
        invariant
            start <= i <= s@.len(),
            forall|j: int| start <= j < i ==> s@[j] != c,
        decreases s@.len() - i,
    {
        if s[i] == c {
            return i;
        }
        i = i + 1;
    }
    i
}

proof fn lemma_before_char(s: Seq<char>, c: char, k: int)
    requires
        0 <= k <= s.len(),
        forall|j: int| 0 <= j < k ==> s[j] != c,
        k < s.len() ==> s[k] == c,
    ensures
        before_char(s, c) == s.subrange(0, k),
    decreases s.len(),
{
    if s.len() == 0 {
    } else if s[0] == c {
        assert(k == 0);
    } else {
        lemma_before_char(s.drop_first(), c, k - 1);
        assert(seq![s[0]] + s.drop_first().subrange(0, k - 1) =~= s.subrange(0, k));
    }
}

proof fn lemma_after_char(s: Seq<char>, c: char, k: int)
    requires
        0 <= k <= s.len(),
        forall|j: int| 0 <= j < k ==> s[j] != c,
        k < s.len() ==> s[k] == c,
    ensures
        k == s.len() ==> after_char(s, c) is None,
        k < s.len() ==> after_char(s, c) == Some(s.subrange(k + 1, s.len() as int)),
    decreases s.len(),
{
    if s.len() == 0 {
    } else if s[0] == c {
        assert(k == 0);
        assert(s.drop_first() =~= s.subrange(1, s.len() as int));
    } else {
        lemma_after_char(s.drop_first(), c, k - 1);
        if k < s.len() {
            assert(s.drop_first().subrange(k, s.drop_first().len() as int) =~= s.subrange(
                k + 1,
                s.len() as int,
            ));
        }
    }
}

/// The subtype of a MIME type (see [`mime_subtype`]).
fn subtype_of(mime: &str) -> (r: String)
    ensures
        r@ == mime_subtype(mime@),
{
    let cs = chars_of(mime);
    let p = find_char(&cs, 0, '/');
    proof {
        lemma_after_char(mime@, '/', p as int);
    }
    if p == cs.len() {
        return string_from(mime);
    }
    let q = find_char(&cs, p + 1, '/');
    let ghost rest = mime@.subrange(p + 1, mime@.len() as int);
    proof {
        assert forall|j: int| 0 <= j < q - (p + 1) implies rest[j] != '/' by {
            assert(rest[j] == cs@[j + p + 1]);
        }
        lemma_before_char(rest, '/', q - (p + 1));
        assert(rest.subrange(0, q - (p + 1)) =~= cs@.subrange(p + 1, q as int));
    }
    string_of_chars(vstd::slice::slice_subrange(cs.as_slice(), p + 1, q))
}

/// The filter extension for one MIME type: the table's entry for well-known
/// types, and otherwise the subtype component (which may well fail
/// [`is_valid_extension`], e.g. for unlisted `vnd.*` types).
pub fn mime_to_extension_of(mime: &str) -> (r: String)
    ensures
        r@ == mime_to_extension(mime@),
{
    match known_extension_of(mime) {
        Some(e) => e,
        None => subtype_of(mime),
    }
}

/// Converts MIME types to file extensions for the native dialog's filter,
/// one extension per MIME type, in order.
pub fn mime_types_to_extensions(mime_types: &[String]) -> (r: Vec<String>)
    ensures
        r@.len() == mime_types@.len(),
        forall|i: int| 0 <= i < r@.len() ==> #[trigger] r@[i]@ == mime_to_extension(mime_types@[i]@),
{
    let mut out: Vec<String> = Vec::new();
    let n = mime_types.len();
    for i in 0..n
        invariant
            n == mime_types@.len(),
            out@.len() == i,
            forall|j: int| 0 <= j < i ==> #[trigger] out@[j]@ == mime_to_extension(mime_types@[j]@),
    {
        out.push(mime_to_extension_of(mime_types[i].as_str()));
    }
    out
}

/// Returns `true` if `ext` is safe to pass as a native filter extension: not
/// empty, and without dots, slashes, backslashes or ASCII whitespace.
pub fn is_valid_extension(ext: &str) -> (r: bool)
    ensures
        r == valid_extension(ext@),
{
    let cs = chars_of(ext);
    if cs.len() == 0 {
        return false;
    }
    for i in 0..cs.len()
        invariant
            cs@ == ext@,
            forall|j: int| 0 <= j < i ==> !is_forbidden_in_extension(#[trigger] ext@[j]),
    {
        let c = cs[i];
        if c == '.' || c == '/' || c == '\\' || c == ' ' || c == '\t' || c == '\n' || c == '\x0C'
            || c == '\r' {
            return false;
        }
    }
    true
}

/// A MIME type that the table does not list gives its subtype: for
/// `type/subtype` (neither part holding a `/`) the extension is `subtype`,
/// and a text with no `/` is its own extension.
pub proof fn lemma_unlisted_mime_gives_subtype(t: Seq<char>, sub: Seq<char>)
    requires
        known_extension(t + seq!['/'] + sub) is None,
        forall|j: int| 0 <= j < t.len() ==> t[j] != '/',
        forall|j: int| 0 <= j < sub.len() ==> sub[j] != '/',
    ensures
        mime_to_extension(t + seq!['/'] + sub) == sub,
        known_extension(t) is None ==> mime_to_extension(t) == t,
{
    let m = t + seq!['/'] + sub;
    lemma_after_char(m, '/', t.len() as int);
    assert(m.subrange(t.len() as int + 1, m.len() as int) =~= sub);
    lemma_before_char(sub, '/', sub.len() as int);
    assert(sub.subrange(0, sub.len() as int) =~= sub);
    lemma_after_char(t, '/', t.len() as int);
}

/// Every extension in the table of well-known MIME types is one that the
/// native dialogs accept.
pub proof fn lemma_known_extensions_are_valid(m: Seq<char>)
    ensures
        known_extension(m) matches Some(e) ==> valid_extension(e),
{
    reveal_strlit("7z");
    reveal_strlit("bmp");
    reveal_strlit("bz2");
    reveal_strlit("css");
    reveal_strlit("csv");
    reveal_strlit("doc");
    reveal_strlit("docx");
    reveal_strlit("epub");
    reveal_strlit("flac");
    reveal_strlit("gif");
    reveal_strlit("gz");
    reveal_strlit("html");
    reveal_strlit("jpg");
    reveal_strlit("json");
    reveal_strlit("md");
    reveal_strlit("mkv");
    reveal_strlit("mp3");
    reveal_strlit("mp4");
    reveal_strlit("odp");
    reveal_strlit("ods");
    reveal_strlit("odt");
    reveal_strlit("ogg");
    reveal_strlit("pdf");
    reveal_strlit("png");
    reveal_strlit("ppt");
    reveal_strlit("pptx");
    reveal_strlit("rtf");
    reveal_strlit("svg");
    reveal_strlit("tar");
    reveal_strlit("tiff");
    reveal_strlit("txt");
    reveal_strlit("wav");
    reveal_strlit("webm");
    reveal_strlit("webp");
    reveal_strlit("xls");
    reveal_strlit("xlsx");
    reveal_strlit("xml");
    reveal_strlit("zip");
}

/// A MIME type that the table does not list falls back to its subtype;
/// a subtype with a dot (as every unlisted `vnd.*` type has) is not an
/// extension that the native dialogs accept.
pub proof fn lemma_dotted_fallback_rejected(m: Seq<char>, k: int)
    requires
        known_extension(m) is None,
        0 <= k < mime_subtype(m).len(),
        mime_subtype(m)[k] == '.',
    ensures
        !valid_extension(mime_to_extension(m)),
{
}

} // verus!
