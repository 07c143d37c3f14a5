//! The stored text format of capability tokens.
//!
//! A token is stored as the JSON text of its platform variant, in the
//! externally tagged shape: an object with one key, the variant's name,
//! whose value is the object of the variant's fields, e.g.
//! `{"Desktop":{"path":"/tmp/a.txt","display_name":"a.txt"}}`.  That text is
//! then base64-encoded (see `token.rs`).
//!
//! This module states the format: how a token is written (compact JSON,
//! fields in declaration order, strings escaped as JSON requires, byte
//! buffers as arrays of decimal numbers) and which texts are read back, and
//! as what.  Reading accepts any JSON text of the right shape: whitespace
//! between tokens, fields in any order or as an array in declaration order,
//! unknown fields (any JSON value, skipped), an absent MIME type; it refuses
//! a duplicated field, a missing required field, a value of the wrong type,
//! a byte outside 0..=255, and anything after the closing brace but
//! whitespace.

use vstd::prelude::*;
use crate::text::{string_of_chars, push_char};

verus! {

// ---------------------------------------------------------------------------
// Field values
// ---------------------------------------------------------------------------

/// What kind of value a token field holds.
#[derive(PartialEq, Eq, Structural, Clone, Copy, Debug)]
pub enum FieldKind {
    /// A string.
    Text,
    /// A string or `null`; an absent field reads as `null`.
    OptText,
    /// A byte buffer, written as an array of numbers.
    Bytes,
}

/// The mathematical value of a token field.
pub enum FieldView {
    Text(Seq<char>),
    OptText(Option<Seq<char>>),
    Bytes(Seq<u8>),
}

/// A token field's value.
#[derive(Debug)]
pub enum FieldValue {
    Text(String),
    OptText(Option<String>),
    Bytes(Vec<u8>),
}

pub open spec fn opt_view(o: Option<String>) -> Option<Seq<char>> {
    match o {
        Some(s) => Some(s@),
        None => None,
    }
}

impl View for FieldValue {
    type V = FieldView;

    open spec fn view(&self) -> FieldView {
        match self {
            FieldValue::Text(s) => FieldView::Text(s@),
            FieldValue::OptText(o) => FieldView::OptText(opt_view(*o)),
            FieldValue::Bytes(b) => FieldView::Bytes(b@),
        }
    }
}

pub open spec fn kind_of(v: FieldView) -> FieldKind {
    match v {
        FieldView::Text(_) => FieldKind::Text,
        FieldView::OptText(_) => FieldKind::OptText,
        FieldView::Bytes(_) => FieldKind::Bytes,
    }
}

// ---------------------------------------------------------------------------
// Writing
// ---------------------------------------------------------------------------

/// Lower-case hexadecimal digit of `n` (0..16).
pub open spec fn hex_digit(n: u32) -> char {
    if n < 10 {
        (n + 48) as char
    } else {
        (n + 87) as char
    }
}

/// Decimal digit of `n` (0..10).
pub open spec fn dec_digit(n: u8) -> char {
    (n + 48) as char
}

/// How one character is written inside a JSON string.
pub open spec fn escape_char(c: char) -> Seq<char> {
    if c == '"' {
        seq!['\\', '"']
    } else if c == '\\' {
        seq!['\\', '\\']
    } else if c == '\x08' {
        seq!['\\', 'b']
    } else if c == '\x0C' {
        seq!['\\', 'f']
    } else if c == '\n' {
        seq!['\\', 'n']
    } else if c == '\r' {
        seq!['\\', 'r']
    } else if c == '\t' {
        seq!['\\', 't']
    } else if (c as u32) < 0x20 {
        seq!['\\', 'u', '0', '0', hex_digit((c as u32) / 16), hex_digit((c as u32) % 16)]
    } else {
        seq![c]
    }
}

/// The escaped characters of a string.
pub open spec fn escape(s: Seq<char>) -> Seq<char>
    decreases s.len(),
{
    if s.len() == 0 {
        Seq::empty()
    } else {
        escape_char(s[0]) + escape(s.drop_first())
    }
}

/// A string written as a JSON string literal.
pub open spec fn json_string(s: Seq<char>) -> Seq<char> {
    seq!['"'] + escape(s) + seq!['"']
}

/// A byte written in decimal.
pub open spec fn decimal(b: u8) -> Seq<char> {
    if b < 10 {
        seq![dec_digit(b)]
    } else if b < 100 {
        seq![dec_digit(b / 10), dec_digit(b % 10)]
    } else {
        seq![dec_digit(b / 100), dec_digit((b / 10) % 10), dec_digit(b % 10)]
    }
}

/// The comma-separated decimal numbers of a byte buffer.
pub open spec fn byte_items(b: Seq<u8>) -> Seq<char>
    decreases b.len(),
{
    if b.len() == 0 {
        Seq::empty()
    } else if b.len() == 1 {
        decimal(b[0])
    } else {
        decimal(b[0]) + seq![','] + byte_items(b.drop_first())
    }
}

/// How a field value is written.
pub open spec fn field_json(v: FieldView) -> Seq<char> {
    match v {
        FieldView::Text(s) => json_string(s),
        FieldView::OptText(None) => seq!['n', 'u', 'l', 'l'],
        FieldView::OptText(Some(s)) => json_string(s),
        FieldView::Bytes(b) => seq!['['] + byte_items(b) + seq![']'],
    }
}

/// The `name:value` entries of an object, comma-separated.
pub open spec fn entries_json(names: Seq<Seq<char>>, vals: Seq<FieldView>) -> Seq<char>
    decreases vals.len(),
{
    if vals.len() == 0 || names.len() == 0 {
        Seq::empty()
    } else if vals.len() == 1 || names.len() == 1 {
        json_string(names[0]) + seq![':'] + field_json(vals[0])
    } else {
        json_string(names[0]) + seq![':'] + field_json(vals[0]) + seq![','] + entries_json(
            names.drop_first(),
            vals.drop_first(),
        )
    }
}

/// A variant written as `{"Variant":{fields}}`.
pub open spec fn variant_json(variant: Seq<char>, names: Seq<Seq<char>>, vals: Seq<FieldView>) -> Seq<
    char,
> {
    seq!['{'] + json_string(variant) + seq![':', '{'] + entries_json(names, vals) + seq!['}', '}']
}

// ---------------------------------------------------------------------------
// Reading
// ---------------------------------------------------------------------------

/// JSON whitespace.
pub open spec fn is_ws(c: char) -> bool {
    c == ' ' || c == '\t' || c == '\n' || c == '\r'
}

/// The first position at or after `i` that is not whitespace.
pub open spec fn skip_ws(s: Seq<char>, i: int) -> int
    decreases s.len() - i,
{
    if 0 <= i < s.len() && is_ws(s[i]) {
        skip_ws(s, i + 1)
    } else {
        i
    }
}

pub open spec fn is_digit(c: char) -> bool {
    '0' <= c && c <= '9'
}

pub open spec fn hex_value(c: char) -> Option<u32> {
    if '0' <= c && c <= '9' {
        Some((c as u32 - 48) as u32)
    } else if 'a' <= c && c <= 'f' {
        Some((c as u32 - 87) as u32)
    } else if 'A' <= c && c <= 'F' {
        Some((c as u32 - 55) as u32)
    } else {
        None
    }
}

/// The four hexadecimal digits at `i`, as a number.
pub open spec fn hex4(s: Seq<char>, i: int) -> Option<u32> {
    if 0 <= i && i + 4 <= s.len() {
        match (hex_value(s[i]), hex_value(s[i + 1]), hex_value(s[i + 2]), hex_value(s[i + 3])) {
            (Some(a), Some(b), Some(c), Some(d)) => Some((a * 4096 + b * 256 + c * 16 + d) as u32),
            _ => None,
        }
    } else {
        None
    }
}

/// A `\u` escape whose four digits start at `i`: the character and the
/// position after it.  A leading surrogate must be followed by a `\u`
/// escape of a trailing surrogate; a lone surrogate is refused.
pub open spec fn unicode_escape(s: Seq<char>, i: int) -> Option<(char, int)> {
    match hex4(s, i) {
        None => None,
        Some(n) => {
            if 0xDC00 <= n && n <= 0xDFFF {
                None
            } else if n < 0xD800 || n > 0xDBFF {
                Some((n as char, i + 4))
            } else if i + 6 <= s.len() && s[i + 4] == '\\' && s[i + 5] == 'u' {
                match hex4(s, i + 6) {
                    Some(n2) => {
                        if 0xDC00 <= n2 && n2 <= 0xDFFF {
                            Some((((n - 0xD800) * 1024 + (n2 - 0xDC00) + 0x10000) as char, i + 10))
                        } else {
                            None
                        }
                    },
                    None => None,
                }
            } else {
                None
            }
        },
    }
}

/// An escape whose letter is at `i` (just after the backslash).
pub open spec fn escape_at(s: Seq<char>, i: int) -> Option<(char, int)> {
    if 0 <= i < s.len() {
        let e = s[i];
        if e == '"' {
            Some(('"', i + 1))
        } else if e == '\\' {
            Some(('\\', i + 1))
        } else if e == '/' {
            Some(('/', i + 1))
        } else if e == 'b' {
            Some(('\x08', i + 1))
        } else if e == 'f' {
            Some(('\x0C', i + 1))
        } else if e == 'n' {
            Some(('\n', i + 1))
        } else if e == 'r' {
            Some(('\r', i + 1))
        } else if e == 't' {
            Some(('\t', i + 1))
        } else if e == 'u' {
            unicode_escape(s, i + 1)
        } else {
            None
        }
    } else {
        None
    }
}

/// The rest of a string literal from `i` (just after the opening quote, or
/// further on, with `acc` read so far): its characters and the position
/// after the closing quote.  Raw control characters are refused.
pub open spec fn string_body(s: Seq<char>, i: int, acc: Seq<char>) -> Option<(Seq<char>, int)>
    decreases s.len() - i,
{
    if i < 0 || i >= s.len() {
        None
    } else if s[i] == '"' {
        Some((acc, i + 1))
    } else if s[i] == '\\' {
        match escape_at(s, i + 1) {
            Some((c, j)) => if i < j <= s.len() {
                string_body(s, j, acc.push(c))
            } else {
                None
            },
            None => None,
        }
    } else if (s[i] as u32) < 0x20 {
        None
    } else {
        string_body(s, i + 1, acc.push(s[i]))
    }
}

/// A string literal after optional whitespace from `i`.
pub open spec fn string_at(s: Seq<char>, i: int) -> Option<(Seq<char>, int)> {
    let p = skip_ws(s, i);
    if 0 <= p < s.len() && s[p] == '"' {
        string_body(s, p + 1, Seq::empty())
    } else {
        None
    }
}

/// The end of the run of decimal digits from `i`.
pub open spec fn digits_end(s: Seq<char>, i: int) -> int
    decreases s.len() - i,
{
    if 0 <= i < s.len() && is_digit(s[i]) {
        digits_end(s, i + 1)
    } else {
        i
    }
}

/// The number written by the digits `s[i..j]`.
pub open spec fn digits_value(s: Seq<char>, i: int, j: int) -> int
    decreases j - i,
{
    if j <= i {
        0
    } else {
        digits_value(s, i, j - 1) * 10 + (s[j - 1] as u32 - 48)
    }
}

/// A byte written in decimal at `i`: no sign, no leading zero, no fraction
/// or exponent, at most 255.
pub open spec fn byte_at(s: Seq<char>, i: int) -> Option<(u8, int)> {
    if 0 <= i < s.len() && is_digit(s[i]) {
        let j = digits_end(s, i);
        let v = digits_value(s, i, j);
        if s[i] == '0' && j > i + 1 {
            None
        } else if v > 255 {
            None
        } else if j < s.len() && (s[j] == '.' || s[j] == 'e' || s[j] == 'E') {
            None
        } else {
            Some((v as u8, j))
        }
    } else {
        None
    }
}

/// The rest of a byte array from `i` (after `[`, or after elements already
/// read into `acc`): the bytes and the position after `]`.
pub open spec fn bytes_rest(s: Seq<char>, i: int, first: bool, acc: Seq<u8>) -> Option<(Seq<u8>, int)>
    decreases s.len() - i,
{
    let p = skip_ws(s, i);
    if p < 0 || p >= s.len() {
        None
    } else if s[p] == ']' {
        Some((acc, p + 1))
    } else {
        let q = if first {
            p
        } else if s[p] == ',' {
            skip_ws(s, p + 1)
        } else {
            -1
        };
        if q < 0 || q >= s.len() {
            None
        } else {
            match byte_at(s, q) {
                Some((b, e)) => if i < e <= s.len() {
                    bytes_rest(s, e, false, acc.push(b))
                } else {
                    None
                },
                None => None,
            }
        }
    }
}

/// A value of the given kind after optional whitespace from `i`.
pub open spec fn value_at(s: Seq<char>, i: int, kind: FieldKind) -> Option<(FieldView, int)> {
    let p = skip_ws(s, i);
    if p < 0 || p >= s.len() {
        None
    } else {
        match kind {
            FieldKind::Text => if s[p] == '"' {
                match string_body(s, p + 1, Seq::empty()) {
                    Some((t, e)) => Some((FieldView::Text(t), e)),
                    None => None,
                }
            } else {
                None
            },
            FieldKind::OptText => if s[p] == 'n' {
                if p + 4 <= s.len() && s[p + 1] == 'u' && s[p + 2] == 'l' && s[p + 3] == 'l' {
                    Some((FieldView::OptText(None), p + 4))
                } else {
                    None
                }
            } else if s[p] == '"' {
                match string_body(s, p + 1, Seq::empty()) {
                    Some((t, e)) => Some((FieldView::OptText(Some(t)), e)),
                    None => None,
                }
            } else {
                None
            },
            FieldKind::Bytes => if s[p] == '[' {
                match bytes_rest(s, p + 1, true, Seq::empty()) {
                    Some((b, e)) => Some((FieldView::Bytes(b), e)),
                    None => None,
                }
            } else {
                None
            },
        }
    }
}

// Skipping the values of unknown fields: any JSON value.  Strings here are
// checked only for the shape of their escapes.

/// The rest of a string literal that is skipped, from `i`.
pub open spec fn skip_string_rest(s: Seq<char>, i: int) -> Option<int>
    decreases s.len() - i,
{
    if i < 0 || i >= s.len() {
        None
    } else if s[i] == '"' {
        Some(i + 1)
    } else if s[i] == '\\' {
        if i + 1 < s.len() {
            let e = s[i + 1];
            if e == '"' || e == '\\' || e == '/' || e == 'b' || e == 'f' || e == 'n' || e == 'r'
                || e == 't' {
                skip_string_rest(s, i + 2)
            } else if e == 'u' {
                if hex4(s, i + 2) is Some {
                    skip_string_rest(s, i + 6)
                } else {
                    None
                }
            } else {
                None
            }
        } else {
            None
        }
    } else if (s[i] as u32) < 0x20 {
        None
    } else {
        skip_string_rest(s, i + 1)
    }
}

/// The end of a run of at least one digit from `i`.
pub open spec fn some_digits(s: Seq<char>, i: int) -> Option<int> {
    if 0 <= i < s.len() && is_digit(s[i]) {
        Some(digits_end(s, i))
    } else {
        None
    }
}

/// An exponent whose `e` or `E` is at `i`.
pub open spec fn exponent_end(s: Seq<char>, i: int) -> Option<int> {
    let j = if s.len() - i > 1 && (s[i + 1] == '+' || s[i + 1] == '-') {
        i + 2
    } else {
        i + 1
    };
    some_digits(s, j)
}

/// The end of a number whose integer part starts at `i` (after any `-`).
pub open spec fn number_end(s: Seq<char>, i: int) -> Option<int> {
    if 0 <= i < s.len() && is_digit(s[i]) {
        let j = if s[i] == '0' {
            i + 1
        } else {
            digits_end(s, i)
        };
        if s[i] == '0' && j < s.len() && is_digit(s[j]) {
            None
        } else if j < s.len() && s[j] == '.' {
            match some_digits(s, j + 1) {
                Some(k) => if k < s.len() && (s[k] == 'e' || s[k] == 'E') {
                    exponent_end(s, k)
                } else {
                    Some(k)
                },
                None => None,
            }
        } else if j < s.len() && (s[j] == 'e' || s[j] == 'E') {
            exponent_end(s, j)
        } else {
            Some(j)
        }
    } else {
        None
    }
}

/// Whether `s` holds `word` at `i`.
pub open spec fn word_at(s: Seq<char>, i: int, word: Seq<char>) -> bool {
    0 <= i && i + word.len() <= s.len() && s.subrange(i, i + word.len()) == word
}

/// The end of a JSON literal, number or string that starts at `p`.
pub open spec fn scalar_end(s: Seq<char>, p: int) -> Option<int> {
    if p < 0 || p >= s.len() {
        None
    } else {
        let c = s[p];
        if c == 'n' {
            if word_at(s, p, seq!['n', 'u', 'l', 'l']) {
                Some(p + 4)
            } else {
                None
            }
        } else if c == 't' {
            if word_at(s, p, seq!['t', 'r', 'u', 'e']) {
                Some(p + 4)
            } else {
                None
            }
        } else if c == 'f' {
            if word_at(s, p, seq!['f', 'a', 'l', 's', 'e']) {
                Some(p + 5)
            } else {
                None
            }
        } else if c == '-' {
            number_end(s, p + 1)
        } else if is_digit(c) {
            number_end(s, p)
        } else if c == '"' {
            skip_string_rest(s, p + 1)
        } else {
            None
        }
    }
}

/// The character that closes an open object (`true`) or array (`false`).
pub open spec fn closer(is_object: bool) -> char {
    if is_object {
        '}'
    } else {
        ']'
    }
}

/// Where the value of an item starts, for an item of an object (`"key":`
/// first) or of an array that starts at `q`.
pub open spec fn item_value_start(s: Seq<char>, q: int, is_object: bool) -> Option<int> {
    if !is_object {
        Some(q)
    } else {
        let k = skip_ws(s, q);
        if q <= k < s.len() && s[k] == '"' {
            match skip_string_rest(s, k + 1) {
                Some(k2) => {
                    let c = skip_ws(s, k2);
                    if k < c < s.len() && s[c] == ':' {
                        Some(c + 1)
                    } else {
                        None
                    }
                },
                None => None,
            }
        } else {
            None
        }
    }
}

/// Where a scan of skipped JSON stands.
#[derive(PartialEq, Eq, Structural, Clone, Copy, Debug)]
pub enum ScanMode {
    /// A value is due.
    Value,
    /// A value has just ended.
    After,
    /// An array or object has just been opened.
    Opened,
}

/// The end of skipped JSON, scanned from `i` in `mode` with the arrays and
/// objects in `open` still open (innermost last, `true` for an object).
pub open spec fn scan(s: Seq<char>, i: int, open: Seq<bool>, mode: ScanMode) -> Option<int>
    decreases s.len() - i, if mode is Opened { 1int } else { 0int },
{
    if i < 0 || i > s.len() {
        None
    } else {
        match mode {
            ScanMode::Value => {
                let p = skip_ws(s, i);
                if p < i || p >= s.len() {
                    None
                } else if s[p] == '[' {
                    scan(s, p + 1, open.push(false), ScanMode::Opened)
                } else if s[p] == '{' {
                    scan(s, p + 1, open.push(true), ScanMode::Opened)
                } else {
                    match scalar_end(s, p) {
                        Some(e) => if e <= i || e > s.len() {
                            None
                        } else {
                            scan(s, e, open, ScanMode::After)
                        },
                        None => None,
                    }
                }
            },
            ScanMode::After => if open.len() == 0 {
                Some(i)
            } else {
                let p = skip_ws(s, i);
                if p < i || p >= s.len() {
                    None
                } else if s[p] == closer(open.last()) {
                    scan(s, p + 1, open.drop_last(), ScanMode::After)
                } else if s[p] == ',' {
                    match item_value_start(s, p + 1, open.last()) {
                        Some(v) => if v <= i || v > s.len() {
                            None
                        } else {
                            scan(s, v, open, ScanMode::Value)
                        },
                        None => None,
                    }
                } else {
                    None
                }
            },
            ScanMode::Opened => if open.len() == 0 {
                None
            } else {
                let p = skip_ws(s, i);
                if p < i || p >= s.len() {
                    None
                } else if s[p] == closer(open.last()) {
                    scan(s, p + 1, open.drop_last(), ScanMode::After)
                } else {
                    match item_value_start(s, p, open.last()) {
                        Some(v) => if v < i || v > s.len() {
                            None
                        } else {
                            scan(s, v, open, ScanMode::Value)
                        },
                        None => None,
                    }
                }
            },
        }
    }
}

/// The end of any JSON value after optional whitespace from `i`.
#[verifier::opaque]
pub open spec fn skip_value(s: Seq<char>, i: int) -> Option<int> {
    scan(s, i, Seq::empty(), ScanMode::Value)
}

/// The index of `key` among `names`, if any.
pub open spec fn index_of(names: Seq<Seq<char>>, key: Seq<char>) -> Option<int>
    decreases names.len(),
{
    if names.len() == 0 {
        None
    } else if names.last() == key {
        Some(names.len() - 1)
    } else {
        index_of(names.drop_last(), key)
    }
}

/// The rest of a field object from `i` (after `{`, or after entries already
/// read into `acc`, which holds what each field has been given so far).
pub open spec fn object_rest(
    s: Seq<char>,
    i: int,
    first: bool,
    names: Seq<Seq<char>>,
    kinds: Seq<FieldKind>,
    acc: Seq<Option<FieldView>>,
) -> Option<(Seq<Option<FieldView>>, int)>
    decreases s.len() - i,
{
    let p = skip_ws(s, i);
    if p < 0 || p >= s.len() {
        None
    } else if s[p] == '}' {
        Some((acc, p + 1))
    } else {
        let q = if first {
            p
        } else if s[p] == ',' {
            skip_ws(s, p + 1)
        } else {
            -1
        };
        if q < 0 || q >= s.len() || s[q] != '"' {
            None
        } else {
            match string_body(s, q + 1, Seq::empty()) {
                None => None,
                Some((key, k1)) => {
                    let c = skip_ws(s, k1);
                    if c < 0 || c >= s.len() || s[c] != ':' {
                        None
                    } else {
                        match index_of(names, key) {
                            Some(f) => if 0 <= f < acc.len() && f < kinds.len() && acc[f] is None {
                                match value_at(s, c + 1, kinds[f]) {
                                    Some((v, e)) => if i < e <= s.len() {
                                        object_rest(s, e, false, names, kinds, acc.update(f, Some(v)))
                                    } else {
                                        None
                                    },
                                    None => None,
                                }
                            } else {
                                None
                            },
                            None => match skip_value(s, c + 1) {
                                Some(e) => if i < e <= s.len() {
                                    object_rest(s, e, false, names, kinds, acc)
                                } else {
                                    None
                                },
                                None => None,
                            },
                        }
                    }
                },
            }
        }
    }
}

/// The field values once the object is read: each field as given, an absent
/// optional string as `null`; `None` when a required field is absent.
pub open spec fn complete_fields(kinds: Seq<FieldKind>, acc: Seq<Option<FieldView>>) -> Option<
    Seq<FieldView>,
>
    decreases kinds.len(),
{
    if kinds.len() == 0 || acc.len() != kinds.len() {
        if kinds.len() == 0 && acc.len() == 0 {
            Some(Seq::empty())
        } else {
            None
        }
    } else {
        match complete_fields(kinds.drop_last(), acc.drop_last()) {
            None => None,
            Some(front) => match acc.last() {
                Some(v) => Some(front.push(v)),
                None => if kinds.last() == FieldKind::OptText {
                    Some(front.push(FieldView::OptText(None)))
                } else {
                    None
                },
            },
        }
    }
}

/// The rest of a field array from `i`: the fields `kinds[k..]` in order,
/// then `]`.
pub open spec fn array_rest(
    s: Seq<char>,
    i: int,
    kinds: Seq<FieldKind>,
    k: int,
    acc: Seq<FieldView>,
) -> Option<(Seq<FieldView>, int)>
    decreases s.len() - i,
{
    let p = skip_ws(s, i);
    if p < 0 || p >= s.len() || k < 0 {
        None
    } else if k >= kinds.len() {
        if s[p] == ']' {
            Some((acc, p + 1))
        } else {
            None
        }
    } else {
        let q = if k == 0 {
            if s[p] == ']' {
                -1
            } else {
                p
            }
        } else if s[p] == ',' {
            let q0 = skip_ws(s, p + 1);
            if q0 < s.len() && s[q0] == ']' {
                -1
            } else {
                q0
            }
        } else {
            -1
        };
        if q < 0 {
            None
        } else {
            match value_at(s, q, kinds[k]) {
                Some((v, e)) => if i < e <= s.len() {
                    array_rest(s, e, kinds, k + 1, acc.push(v))
                } else {
                    None
                },
                None => None,
            }
        }
    }
}

/// The fields of a variant, as an object or as an array, after optional
/// whitespace from `i`.
pub open spec fn fields_at(s: Seq<char>, i: int, names: Seq<Seq<char>>, kinds: Seq<FieldKind>) -> Option<
    (Seq<FieldView>, int),
> {
    let p = skip_ws(s, i);
    if p < 0 || p >= s.len() {
        None
    } else if s[p] == '{' {
        match object_rest(s, p + 1, true, names, kinds, Seq::new(kinds.len(), |j: int| None)) {
            Some((acc, e)) => match complete_fields(kinds, acc) {
                Some(vals) => Some((vals, e)),
                None => None,
            },
            None => None,
        }
    } else if s[p] == '[' {
        array_rest(s, p + 1, kinds, 0, Seq::empty())
    } else {
        None
    }
}

// ---------------------------------------------------------------------------
// Reading, executable
// ---------------------------------------------------------------------------

/// The character with the given code point (`char::from_u32`).
///
/// Claimed, as std documents it: `Some` exactly for the code points that are
/// Unicode scalar values (at most 0x10FFFF, not a surrogate), holding the
/// character with that code point.
#[verifier::external_body]
fn char_from_u32(n: u32) -> (r: Option<char>)
    ensures
        (n <= 0x10FFFF && !(0xD800 <= n && n <= 0xDFFF)) ==> r == Some(n as char),
        !(n <= 0x10FFFF && !(0xD800 <= n && n <= 0xDFFF)) ==> r is None,
{
    char::from_u32(n)
}

pub fn skip_ws_exec(s: &Vec<char>, i: usize) -> (r: usize)
    requires
        i <= s@.len(),
    ensures
        r == skip_ws(s@, i as int),
        i <= r <= s@.len(),
{
    let mut j = i;
    while j < s.len() && (s[j] == ' ' || s[j] == '\t' || s[j] == '\n' || s[j] == '\r')
        invariant
            i <= j <= s@.len(),
            skip_ws(s@, i as int) == skip_ws(s@, j as int),
        decreases s@.len() - j,
    {
        j = j + 1;
    }
    j
}

fn hex_value_exec(c: char) -> (r: Option<u32>)
    ensures
        r == hex_value(c),
{
    if '0' <= c && c <= '9' {
        Some(c as u32 - 48)
    } else if 'a' <= c && c <= 'f' {
        Some(c as u32 - 87)
    } else if 'A' <= c && c <= 'F' {
        Some(c as u32 - 55)
    } else {
        None
    }
}

fn hex4_exec(s: &Vec<char>, i: usize) -> (r: Option<u32>)
    ensures
        r == hex4(s@, i as int),
{
    if i <= s.len() && 4 <= s.len() - i {
        match (hex_value_exec(s[i]), hex_value_exec(s[i + 1]), hex_value_exec(s[i + 2]), hex_value_exec(s[i + 3])) {
            (Some(a), Some(b), Some(c), Some(d)) => {
                assert(a < 16 && b < 16 && c < 16 && d < 16);
                Some(a * 4096 + b * 256 + c * 16 + d)
            },
            _ => None,
        }
    } else {
        None
    }
}

fn unicode_escape_exec(s: &Vec<char>, i: usize) -> (r: Option<(char, usize)>)
    requires
        i <= s@.len(),
    ensures
        r matches Some((c, j)) ==> unicode_escape(s@, i as int) == Some((c, j as int)),
        r is None ==> unicode_escape(s@, i as int) is None,
{
    match hex4_exec(s, i) {
        None => None,
        Some(n) => {
            assert(n < 65536);
            assert(i + 4 <= s@.len());
            assert(s@.len() == s.len());
            if 0xDC00 <= n && n <= 0xDFFF {
                None
            } else if n < 0xD800 || n > 0xDBFF {
                match char_from_u32(n) {
                    Some(c) => Some((c, i + 4)),
                    None => None,
                }
            } else if 6 <= s.len() - i && s[i + 4] == '\\' && s[i + 5] == 'u' {
                match hex4_exec(s, i + 6) {
                    Some(n2) => {
                        if 0xDC00 <= n2 && n2 <= 0xDFFF {
                            let code = (n - 0xD800) * 1024 + (n2 - 0xDC00) + 0x10000;
                            match char_from_u32(code) {
                                Some(c) => Some((c, i + 10)),
                                None => None,
                            }
                        } else {
                            None
                        }
                    },
                    None => None,
                }
            } else {
                None
            }
        },
    }
}

fn escape_at_exec(s: &Vec<char>, i: usize) -> (r: Option<(char, usize)>)
    requires
        i <= s@.len(),
    ensures
        r matches Some((c, j)) ==> escape_at(s@, i as int) == Some((c, j as int)),
        r is None ==> escape_at(s@, i as int) is None,
{
    if i < s.len() {
        let e = s[i];
        if e == '"' {
            Some(('"', i + 1))
        } else if e == '\\' {
            Some(('\\', i + 1))
        } else if e == '/' {
            Some(('/', i + 1))
        } else if e == 'b' {
            Some(('\x08', i + 1))
        } else if e == 'f' {
            Some(('\x0C', i + 1))
        } else if e == 'n' {
            Some(('\n', i + 1))
        } else if e == 'r' {
            Some(('\r', i + 1))
        } else if e == 't' {
            Some(('\t', i + 1))
        } else if e == 'u' {
            unicode_escape_exec(s, i + 1)
        } else {
            None
        }
    } else {
        None
    }
}

/// Reads the rest of a string literal from `i` (just after its opening
/// quote): its characters and the position after the closing quote.
pub fn string_body_exec(s: &Vec<char>, start: usize) -> (r: Option<(Vec<char>, usize)>)
    requires
        start <= s@.len(),
    ensures
        r matches Some((t, j)) ==> string_body(s@, start as int, Seq::empty()) == Some((t@, j as int)),
        r matches Some((t, j)) ==> j <= s@.len(),
        r is None ==> string_body(s@, start as int, Seq::empty()) is None,
{
    let mut acc: Vec<char> = Vec::new();
    let mut i = start;
    loop
        invariant
            start <= i <= s@.len(),
            string_body(s@, start as int, Seq::empty()) == string_body(s@, i as int, acc@),
        decreases s@.len() - i,
    {
        if i >= s.len() {
            return None;
        }
        let c = s[i];
        if c == '"' {
            return Some((acc, i + 1));
        } else if c == '\\' {
            match escape_at_exec(s, i + 1) {
                Some((ch, j)) => {
                    if !(i < j && j <= s.len()) {
                        return None;
                    }
                    acc.push(ch);
                    i = j;
                },
                None => {
                    return None;
                },
            }
        } else if (c as u32) < 0x20 {
            return None;
        } else {
            acc.push(c);
            i = i + 1;
        }
    }
}

fn digits_end_exec(s: &Vec<char>, i: usize) -> (r: usize)
    requires
        i <= s@.len(),
    ensures
        r == digits_end(s@, i as int),
        i <= r <= s@.len(),
{
    let mut j = i;
    while j < s.len() && '0' <= s[j] && s[j] <= '9'
        invariant
            i <= j <= s@.len(),
            digits_end(s@, i as int) == digits_end(s@, j as int),
        decreases s@.len() - j,
    {
        j = j + 1;
    }
    j
}

fn byte_at_exec(s: &Vec<char>, i: usize) -> (r: Option<(u8, usize)>)
    requires
        i <= s@.len(),
    ensures
        r matches Some((b, j)) ==> byte_at(s@, i as int) == Some((b, j as int)),
        r is None ==> byte_at(s@, i as int) is None,
{
    if i < s.len() && '0' <= s[i] && s[i] <= '9' {
        let j = digits_end_exec(s, i);
        if s[i] == '0' && j > i + 1 {
            return None;
        }
        proof { lemma_digits_end_all_digits(s@, i as int); }
        let mut v: u32 = 0;
        let mut k = i;
        while k < j
            invariant
                i <= k <= j <= s@.len(),
                j == digits_end(s@, i as int),
                forall|m: int| i <= m < j ==> is_digit(#[trigger] s@[m]),
                v as int == digits_value(s@, i as int, k as int),
                v <= 255,
            decreases j - k,
        {
            let d = s[k] as u32 - 48;
            assert(d <= 9);
            v = v * 10 + d;
            k = k + 1;
            if v > 255 {
                proof { lemma_digits_value_grows(s@, i as int, k as int, j as int); }
                return None;
            }
        }
        if j < s.len() && (s[j] == '.' || s[j] == 'e' || s[j] == 'E') {
            return None;
        }
        Some((v as u8, j))
    } else {
        None
    }
}

proof fn lemma_digits_end_all_digits(s: Seq<char>, i: int)
    requires
        0 <= i <= s.len(),
    ensures
        i <= digits_end(s, i) <= s.len(),
        forall|m: int| i <= m < digits_end(s, i) ==> is_digit(#[trigger] s[m]),
        digits_end(s, i) < s.len() ==> !is_digit(s[digits_end(s, i)]),
    decreases s.len() - i,
{
    if i < s.len() && is_digit(s[i]) {
        lemma_digits_end_all_digits(s, i + 1);
    }
}

proof fn lemma_digits_value_grows(s: Seq<char>, i: int, k: int, j: int)
    requires
        i <= k <= j <= s.len(),
        forall|m: int| i <= m < j ==> is_digit(#[trigger] s[m]),
    ensures
        digits_value(s, i, k) <= digits_value(s, i, j),
        digits_value(s, i, k) >= 0,
    decreases j - k,
{
    if k < j {
        lemma_digits_value_grows(s, i, k, j - 1);
        lemma_digits_value_nonneg(s, i, j - 1);
        assert(is_digit(s[j - 1]));
    } else {
        lemma_digits_value_nonneg(s, i, k);
    }
}

proof fn lemma_digits_value_nonneg(s: Seq<char>, i: int, k: int)
    requires
        i <= k <= s.len(),
        forall|m: int| i <= m < k ==> is_digit(#[trigger] s[m]),
    ensures
        digits_value(s, i, k) >= 0,
    decreases k - i,
{
    if k > i {
        lemma_digits_value_nonneg(s, i, k - 1);
        assert(is_digit(s[k - 1]));
    }
}

fn bytes_rest_exec(s: &Vec<char>, start: usize) -> (r: Option<(Vec<u8>, usize)>)
    requires
        start <= s@.len(),
    ensures
        r matches Some((b, j)) ==> bytes_rest(s@, start as int, true, Seq::empty()) == Some((b@, j as int)),
        r is None ==> bytes_rest(s@, start as int, true, Seq::empty()) is None,
{
    let mut acc: Vec<u8> = Vec::new();
    let mut i = start;
    let mut first = true;
    loop
        invariant
            start <= i <= s@.len(),
            bytes_rest(s@, start as int, true, Seq::empty()) == bytes_rest(s@, i as int, first, acc@),
        decreases s@.len() - i,
    {
        let p = skip_ws_exec(s, i);
        if p >= s.len() {
            return None;
        }
        if s[p] == ']' {
            return Some((acc, p + 1));
        }
        let q = if first {
            p
        } else if s[p] == ',' {
            skip_ws_exec(s, p + 1)
        } else {
            return None;
        };
        if q >= s.len() {
            return None;
        }
        match byte_at_exec(s, q) {
            Some((b, e)) => {
                if !(i < e && e <= s.len()) {
                    return None;
                }
                acc.push(b);
                i = e;
                first = false;
            },
            None => {
                return None;
            },
        }
    }
}

/// Reads a value of the given kind after optional whitespace from `i`.
fn value_at_exec(s: &Vec<char>, i: usize, kind: FieldKind) -> (r: Option<(FieldValue, usize)>)
    requires
        i <= s@.len(),
    ensures
        r matches Some((v, j)) ==> value_at(s@, i as int, kind) == Some((v@, j as int)),
        r is None ==> value_at(s@, i as int, kind) is None,
{
    let p = skip_ws_exec(s, i);
    if p >= s.len() {
        return None;
    }
    match kind {
        FieldKind::Text => if s[p] == '"' {
            match string_body_exec(s, p + 1) {
                Some((t, e)) => Some((FieldValue::Text(string_of_chars(t.as_slice())), e)),
                None => None,
            }
        } else {
            None
        },
        FieldKind::OptText => if s[p] == 'n' {
            if 4 <= s.len() - p && s[p + 1] == 'u' && s[p + 2] == 'l' && s[p + 3] == 'l' {
                Some((FieldValue::OptText(None), p + 4))
            } else {
                None
            }
        } else if s[p] == '"' {
            match string_body_exec(s, p + 1) {
                Some((t, e)) => Some((FieldValue::OptText(Some(string_of_chars(t.as_slice()))), e)),
                None => None,
            }
        } else {
            None
        },
        FieldKind::Bytes => if s[p] == '[' {
            match bytes_rest_exec(s, p + 1) {
                Some((b, e)) => Some((FieldValue::Bytes(b), e)),
                None => None,
            }
        } else {
            None
        },
    }
}

fn skip_string_rest_exec(s: &Vec<char>, start: usize) -> (r: Option<usize>)
    requires
        start <= s@.len(),
    ensures
        r matches Some(j) ==> skip_string_rest(s@, start as int) == Some(j as int) && j <= s@.len(),
        r is None ==> skip_string_rest(s@, start as int) is None,
{
    let mut i = start;
    loop
        invariant
            start <= i <= s@.len(),
            skip_string_rest(s@, start as int) == skip_string_rest(s@, i as int),
        decreases s@.len() - i,
    {
        if i >= s.len() {
            return None;
        }
        let c = s[i];
        if c == '"' {
            return Some(i + 1);
        } else if c == '\\' {
            if i + 1 < s.len() {
                let e = s[i + 1];
                if e == '"' || e == '\\' || e == '/' || e == 'b' || e == 'f' || e == 'n' || e == 'r'
                    || e == 't' {
                    i = i + 2;
                } else if e == 'u' {
                    if hex4_exec(s, i + 2).is_some() {
                        assert(i + 6 <= s@.len());
                        i = i + 6;
                    } else {
                        return None;
                    }
                } else {
                    return None;
                }
            } else {
                return None;
            }
        } else if (c as u32) < 0x20 {
            return None;
        } else {
            i = i + 1;
        }
    }
}

fn some_digits_exec(s: &Vec<char>, i: usize) -> (r: Option<usize>)
    requires
        i <= s@.len(),
    ensures
        r matches Some(j) ==> some_digits(s@, i as int) == Some(j as int) && j <= s@.len(),
        r is None ==> some_digits(s@, i as int) is None,
{
    if i < s.len() && '0' <= s[i] && s[i] <= '9' {
        Some(digits_end_exec(s, i))
    } else {
        None
    }
}

fn exponent_end_exec(s: &Vec<char>, i: usize) -> (r: Option<usize>)
    requires
        i < s@.len(),
    ensures
        r matches Some(j) ==> exponent_end(s@, i as int) == Some(j as int) && j <= s@.len(),
        r is None ==> exponent_end(s@, i as int) is None,
{
    let j = if s.len() - i > 1 && (s[i + 1] == '+' || s[i + 1] == '-') {
        i + 2
    } else {
        i + 1
    };
    some_digits_exec(s, j)
}

fn number_end_exec(s: &Vec<char>, i: usize) -> (r: Option<usize>)
    requires
        i <= s@.len(),
    ensures
        r matches Some(j) ==> number_end(s@, i as int) == Some(j as int) && j <= s@.len(),
        r is None ==> number_end(s@, i as int) is None,
{
    if i < s.len() && '0' <= s[i] && s[i] <= '9' {
        let j = if s[i] == '0' {
            i + 1
        } else {
            digits_end_exec(s, i)
        };
        if s[i] == '0' && j < s.len() && '0' <= s[j] && s[j] <= '9' {
            None
        } else if j < s.len() && s[j] == '.' {
            match some_digits_exec(s, j + 1) {
                Some(k) => if k < s.len() && (s[k] == 'e' || s[k] == 'E') {
                    exponent_end_exec(s, k)
                } else {
                    Some(k)
                },
                None => None,
            }
        } else if j < s.len() && (s[j] == 'e' || s[j] == 'E') {
            exponent_end_exec(s, j)
        } else {
            Some(j)
        }
    } else {
        None
    }
}

fn word_at_exec(s: &Vec<char>, i: usize, word: &str) -> (r: bool)
    ensures
        r == word_at(s@, i as int, word@),
{
    let n = word.unicode_len();
    let len = s.len();
    if i > len || n > len - i {
        return false;
    }
    let mut k: usize = 0;
    while k < n
        invariant
            n == word@.len(),
            i + n <= s@.len(),
            len == s@.len(),
            0 <= k <= n,
            forall|m: int| 0 <= m < k ==> s@[i + m] == word@[m],
        decreases n - k,
    {
        if s[i + k] != word.get_char(k) {
            assert(s@.subrange(i as int, i + n)[k as int] != word@[k as int]);
            return false;
        }
        k = k + 1;
    }
    assert(s@.subrange(i as int, i + n) =~= word@);
    true
}

/// The end of a JSON literal, number or string that starts at `p`.
fn scalar_end_exec(s: &Vec<char>, p: usize) -> (r: Option<usize>)
    requires
        p < s.len(),
    ensures
        r matches Some(j) ==> scalar_end(s@, p as int) == Some(j as int) && j <= s@.len(),
        r is None ==> scalar_end(s@, p as int) is None,
{
    let c = s[p];
    if c == 'n' {
        proof {
            reveal_strlit("null");
            assert("null"@ =~= seq!['n','u','l','l']);
        }
        if word_at_exec(s, p, "null") {
            Some(p + 4)
        } else {
            None
        }
    } else if c == 't' {
        proof {
            reveal_strlit("true");
            assert("true"@ =~= seq!['t','r','u','e']);
        }
        if word_at_exec(s, p, "true") {
            Some(p + 4)
        } else {
            None
        }
    } else if c == 'f' {
        proof {
            reveal_strlit("false");
            assert("false"@ =~= seq!['f','a','l','s','e']);
        }
        if word_at_exec(s, p, "false") {
            Some(p + 5)
        } else {
            None
        }
    } else if c == '-' {
        number_end_exec(s, p + 1)
    } else if '0' <= c && c <= '9' {
        number_end_exec(s, p)
    } else if c == '"' {
        skip_string_rest_exec(s, p + 1)
    } else {
        None
    }
}

/// Where the value of an item starts (see [`item_value_start`]).
fn item_value_start_exec(s: &Vec<char>, q: usize, is_object: bool) -> (r: Option<usize>)
    requires
        q <= s@.len(),
    ensures
        r matches Some(v) ==> item_value_start(s@, q as int, is_object) == Some(v as int) && v <= s@.len(),
        r is None ==> item_value_start(s@, q as int, is_object) is None,
{
    if !is_object {
        return Some(q);
    }
    let k = skip_ws_exec(s, q);
    if k < s.len() && s[k] == '"' {
        match skip_string_rest_exec(s, k + 1) {
            Some(k2) => {
                let c = skip_ws_exec(s, k2);
                if k < c && c < s.len() && s[c] == ':' {
                    Some(c + 1)
                } else {
                    None
                }
            },
            None => None,
        }
    } else {
        None
    }
}

/// Skips any JSON value after optional whitespace from `i`.  The arrays
/// and objects that are open are kept on a stack of their own, so however
/// deeply the value nests, the call stack does not grow.
pub fn skip_value_exec(s: &Vec<char>, i: usize) -> (r: Option<usize>)
    requires
        i <= s@.len(),
    ensures
        r matches Some(j) ==> skip_value(s@, i as int) == Some(j as int) && j <= s@.len(),
        r is None ==> skip_value(s@, i as int) is None,
{
    let mut open: Vec<bool> = Vec::new();
    let mut mode = ScanMode::Value;
    let mut pos = i;
    proof {
        reveal(skip_value);
    }
    loop
        invariant
            pos <= s@.len(),
            skip_value(s@, i as int) == scan(s@, pos as int, open@, mode),
        decreases s@.len() - pos, if mode is Opened { 1int } else { 0int },
    {
        match mode {
            ScanMode::Value => {
                let p = skip_ws_exec(s, pos);
                if p >= s.len() {
                    return None;
                }
                if s[p] == '[' {
                    open.push(false);
                    pos = p + 1;
                    mode = ScanMode::Opened;
                } else if s[p] == '{' {
                    open.push(true);
                    pos = p + 1;
                    mode = ScanMode::Opened;
                } else {
                    match scalar_end_exec(s, p) {
                        Some(e) => {
                            if e <= pos {
                                return None;
                            }
                            pos = e;
                            mode = ScanMode::After;
                        },
                        None => {
                            return None;
                        },
                    }
                }
            },
            ScanMode::After => {
                if open.len() == 0 {
                    return Some(pos);
                }
                let p = skip_ws_exec(s, pos);
                if p >= s.len() {
                    return None;
                }
                let top = open[open.len() - 1];
                let close = if top { '}' } else { ']' };
                if s[p] == close {
                    open.pop();
                    pos = p + 1;
                } else if s[p] == ',' {
                    match item_value_start_exec(s, p + 1, top) {
                        Some(v) => {
                            if v <= pos {
                                return None;
                            }
                            pos = v;
                            mode = ScanMode::Value;
                        },
                        None => {
                            return None;
                        },
                    }
                } else {
                    return None;
                }
            },
            ScanMode::Opened => {
                if open.len() == 0 {
                    return None;
                }
                let p = skip_ws_exec(s, pos);
                if p >= s.len() {
                    return None;
                }
                let top = open[open.len() - 1];
                let close = if top { '}' } else { ']' };
                if s[p] == close {
                    open.pop();
                    pos = p + 1;
                    mode = ScanMode::After;
                } else {
                    match item_value_start_exec(s, p, top) {
                        Some(v) => {
                            if v < pos {
                                return None;
                            }
                            pos = v;
                            mode = ScanMode::Value;
                        },
                        None => {
                            return None;
                        },
                    }
                }
            },
        }
    }
}

/// The names of the fields, as character sequences.
pub open spec fn names_view(names: Seq<&str>) -> Seq<Seq<char>> {
    names.map_values(|n: &str| n@)
}

/// What each field has been given so far.
pub open spec fn slots_view(acc: Seq<Option<FieldValue>>) -> Seq<Option<FieldView>> {
    acc.map_values(
        |o: Option<FieldValue>|
            match o {
                Some(v) => Some(v@),
                None => None,
            },
    )
}

pub open spec fn values_view(vals: Seq<FieldValue>) -> Seq<FieldView> {
    vals.map_values(|v: FieldValue| v@)
}

/// Whether the characters `a` are those of `b`.
pub fn chars_eq_str(a: &Vec<char>, b: &str) -> (r: bool)
    ensures
        r == (a@ == b@),
{
    let n = b.unicode_len();
    if n != a.len() {
        return false;
    }
    let mut k: usize = 0;
    while k < n
        invariant
            n == b@.len(),
            n == a@.len(),
            0 <= k <= n,
            forall|m: int| 0 <= m < k ==> a@[m] == b@[m],
        decreases n - k,
    {
        if a[k] != b.get_char(k) {
            return false;
        }
        k = k + 1;
    }
    assert(a@ =~= b@);
    true
}

fn index_of_exec(names: &[&str], key: &Vec<char>) -> (r: Option<usize>)
    ensures
        r matches Some(f) ==> index_of(names_view(names@), key@) == Some(f as int),
        r is None ==> index_of(names_view(names@), key@) is None,
{
    let mut j = names.len();
    assert(names_view(names@).take(names@.len() as int) =~= names_view(names@));
    while j > 0
        invariant
            j <= names@.len(),
            index_of(names_view(names@), key@) == index_of(names_view(names@).take(j as int), key@),
        decreases j,
    {
        let ghost t = names_view(names@).take(j as int);
        assert(t.last() == names@[j - 1]@);
        assert(t.drop_last() =~= names_view(names@).take(j - 1));
        if chars_eq_str(key, names[j - 1]) {
            return Some(j - 1);
        }
        j = j - 1;
    }
    None
}

/// Reads the rest of a field object from `start` (just after `{`).
fn object_rest_exec(s: &Vec<char>, start: usize, names: &[&str], kinds: &[FieldKind]) -> (r: Option<
    (Vec<Option<FieldValue>>, usize),
>)
    requires
        start <= s@.len(),
        names@.len() == kinds@.len(),
    ensures
        r matches Some((acc, j)) ==> acc@.len() == kinds@.len() && j <= s@.len(),
        r matches Some((acc, j)) ==> object_rest(
            s@,
            start as int,
            true,
            names_view(names@),
            kinds@,
            Seq::new(kinds@.len(), |m: int| None),
        ) == Some((slots_view(acc@), j as int)),
        r is None ==> object_rest(
            s@,
            start as int,
            true,
            names_view(names@),
            kinds@,
            Seq::new(kinds@.len(), |m: int| None),
        ) is None,
{
    let mut acc: Vec<Option<FieldValue>> = Vec::new();
    let n = kinds.len();
    for m in 0..n
        invariant
            n == kinds@.len(),
            acc@.len() == m,
            forall|x: int| 0 <= x < m ==> (#[trigger] acc@[x]) is None,
    {
        acc.push(None);
    }
    assert(slots_view(acc@) =~= Seq::new(kinds@.len(), |m: int| None));
    let mut i = start;
    let mut first = true;
    loop
        invariant
            start <= i <= s@.len(),
            n == kinds@.len(),
            names@.len() == kinds@.len(),
            acc@.len() == n,
            object_rest(
                s@,
                start as int,
                true,
                names_view(names@),
                kinds@,
                Seq::new(kinds@.len(), |m: int| None),
            ) == object_rest(s@, i as int, first, names_view(names@), kinds@, slots_view(acc@)),
        decreases s@.len() - i,
    {
        let p = skip_ws_exec(s, i);
        if p >= s.len() {
            return None;
        }
        if s[p] == '}' {
            return Some((acc, p + 1));
        }
        let q = if first {
            p
        } else if s[p] == ',' {
            skip_ws_exec(s, p + 1)
        } else {
            return None;
        };
        if q >= s.len() || s[q] != '"' {
            return None;
        }
        let (key, k1) = match string_body_exec(s, q + 1) {
            Some(x) => x,
            None => {
                return None;
            },
        };
        let c = skip_ws_exec(s, k1);
        if c >= s.len() || s[c] != ':' {
            return None;
        }
        match index_of_exec(names, &key) {
            Some(f) => {
                proof { index_of_in_range(names_view(names@), key@); }
                if f >= n || acc[f].is_some() {
                    return None;
                }
                match value_at_exec(s, c + 1, kinds[f]) {
                    Some((v, e)) => {
                        if !(i < e && e <= s.len()) {
                            return None;
                        }
                        let ghost old_acc = acc@;
                        let ghost vv = v@;
                        acc.set(f, Some(v));
                        assert(slots_view(acc@) =~= slots_view(old_acc).update(f as int, Some(vv)));
                        i = e;
                        first = false;
                    },
                    None => {
                        return None;
                    },
                }
            },
            None => {
                match skip_value_exec(s, c + 1) {
                    Some(e) => {
                        if !(i < e && e <= s.len()) {
                            return None;
                        }
                        i = e;
                        first = false;
                    },
                    None => {
                        return None;
                    },
                }
            },
        }
    }
}

proof fn index_of_in_range(names: Seq<Seq<char>>, key: Seq<char>)
    ensures
        index_of(names, key) matches Some(f) ==> 0 <= f < names.len(),
    decreases names.len(),
{
    if names.len() > 0 && names.last() != key {
        index_of_in_range(names.drop_last(), key);
    }
}

/// The field values once the object is read (see [`complete_fields`]).
fn complete_fields_exec(kinds: &[FieldKind], slots: Vec<Option<FieldValue>>) -> (r: Option<Vec<FieldValue>>)
    requires
        slots@.len() == kinds@.len(),
    ensures
        r matches Some(v) ==> complete_fields(kinds@, slots_view(slots@)) == Some(values_view(v@)),
        r is None ==> complete_fields(kinds@, slots_view(slots@)) is None,
{
    let ghost a0 = slots@;
    let mut acc = slots;
    let mut out: Vec<FieldValue> = Vec::new();
    let mut m = acc.len();
    assert(kinds@.take(m as int) =~= kinds@);
    assert(a0.take(m as int) =~= a0);
    proof {
        match complete_fields(kinds@, slots_view(a0)) {
            Some(f) => {
                assert(f + values_view(out@) =~= f);
            },
            None => {},
        }
    }
    while m > 0
        invariant
            m == acc@.len(),
            m <= kinds@.len(),
            a0 == slots@,
            a0.len() == kinds@.len(),
            acc@ == a0.take(m as int),
            complete_fields(kinds@, slots_view(a0)) == match complete_fields(
                kinds@.take(m as int),
                slots_view(a0.take(m as int)),
            ) {
                Some(front) => Some(front + values_view(out@)),
                None => None,
            },
        decreases m,
    {
        let ghost kt = kinds@.take(m as int);
        let ghost at = slots_view(a0.take(m as int));
        assert(kt.drop_last() =~= kinds@.take(m - 1));
        assert(at.drop_last() =~= slots_view(a0.take(m - 1)));
        assert(kt.last() == kinds@[m - 1]);
        let ghost old_acc = acc@;
        let last = acc.pop().unwrap();
        assert(acc@ =~= a0.take(m - 1));
        let ghost old_out = out@;
        let ghost x: FieldView;
        match last {
            Some(v) => {
                proof {
                    x = v@;
                }
                assert(at.last() == Some(x));
                out.insert(0, v);
                assert(values_view(out@) =~= seq![x] + values_view(old_out));
            },
            None => {
                assert(at.last() is None);
                if kinds[m - 1] == FieldKind::OptText {
                    proof {
                        x = FieldView::OptText(None);
                    }
                    out.insert(0, FieldValue::OptText(None));
                    assert(values_view(out@) =~= seq![x] + values_view(old_out));
                } else {
                    assert(complete_fields(kt, at) is None);
                    assert(complete_fields(kinds@, slots_view(a0)) is None);
                    return None;
                }
            },
        }
        proof {
            match complete_fields(kinds@.take(m - 1), slots_view(a0.take(m - 1))) {
                Some(front) => {
                    assert(complete_fields(kt, at) == Some(front.push(x)));
                    assert(front.push(x) + values_view(old_out) =~= front + values_view(out@));
                },
                None => {
                    assert(complete_fields(kt, at) is None);
                },
            }
        }
        m = m - 1;
    }
    assert(kinds@.take(0) =~= Seq::<FieldKind>::empty());
    assert(slots_view(a0.take(0)) =~= Seq::<Option<FieldView>>::empty());
    assert(Seq::<FieldView>::empty() + values_view(out@) =~= values_view(out@));
    Some(out)
}

/// Reads the rest of a field array from `start` (just after `[`).
fn array_rest_exec(s: &Vec<char>, start: usize, kinds: &[FieldKind]) -> (r: Option<(Vec<FieldValue>, usize)>)
    requires
        start <= s@.len(),
    ensures
        r matches Some((v, j)) ==> j <= s@.len(),
        r matches Some((v, j)) ==> array_rest(s@, start as int, kinds@, 0, Seq::empty()) == Some(
            (values_view(v@), j as int),
        ),
        r is None ==> array_rest(s@, start as int, kinds@, 0, Seq::empty()) is None,
{
    let mut acc: Vec<FieldValue> = Vec::new();
    let mut i = start;
    let mut k: usize = 0;
    assert(values_view(acc@) =~= Seq::<FieldView>::empty());
    loop
        invariant
            start <= i <= s@.len(),
            k == acc@.len(),
            array_rest(s@, start as int, kinds@, 0, Seq::empty()) == array_rest(
                s@,
                i as int,
                kinds@,
                k as int,
                values_view(acc@),
            ),
        decreases s@.len() - i,
    {
        let p = skip_ws_exec(s, i);
        if p >= s.len() {
            return None;
        }
        if k >= kinds.len() {
            if s[p] == ']' {
                return Some((acc, p + 1));
            } else {
                return None;
            }
        }
        let q = if k == 0 {
            if s[p] == ']' {
                return None;
            }
            p
        } else if s[p] == ',' {
            let q0 = skip_ws_exec(s, p + 1);
            if q0 < s.len() && s[q0] == ']' {
                return None;
            }
            q0
        } else {
            return None;
        };
        match value_at_exec(s, q, kinds[k]) {
            Some((v, e)) => {
                if !(i < e && e <= s.len()) {
                    return None;
                }
                let ghost old = values_view(acc@);
                let ghost vv = v@;
                acc.push(v);
                assert(values_view(acc@) =~= old.push(vv));
                i = e;
                k = k + 1;
            },
            None => {
                return None;
            },
        }
    }
}

/// Reads a variant's fields, as an object or as an array, after optional
/// whitespace from `i`.
pub fn fields_at_exec(s: &Vec<char>, i: usize, names: &[&str], kinds: &[FieldKind]) -> (r: Option<
    (Vec<FieldValue>, usize),
>)
    requires
        i <= s@.len(),
        names@.len() == kinds@.len(),
    ensures
        r matches Some((v, j)) ==> j <= s@.len(),
        r matches Some((v, j)) ==> fields_at(s@, i as int, names_view(names@), kinds@) == Some(
            (values_view(v@), j as int),
        ),
        r is None ==> fields_at(s@, i as int, names_view(names@), kinds@) is None,
{
    let p = skip_ws_exec(s, i);
    if p >= s.len() {
        return None;
    }
    if s[p] == '{' {
        match object_rest_exec(s, p + 1, names, kinds) {
            Some((acc, e)) => {
                match complete_fields_exec(kinds, acc) {
                    Some(vals) => Some((vals, e)),
                    None => None,
                }
            },
            None => None,
        }
    } else if s[p] == '[' {
        array_rest_exec(s, p + 1, kinds)
    } else {
        None
    }
}

// ---------------------------------------------------------------------------
// Writing, executable
// ---------------------------------------------------------------------------

proof fn lemma_escape_push(s: Seq<char>, c: char)
    ensures
        escape(s.push(c)) == escape(s) + escape_char(c),
    decreases s.len(),
{
    if s.len() == 0 {
        assert(s.push(c).drop_first() =~= Seq::<char>::empty());
        assert(escape(s.push(c)) =~= escape_char(c) + escape(Seq::<char>::empty()));
        assert(escape(Seq::<char>::empty()) =~= Seq::<char>::empty());
        assert(escape(s) + escape_char(c) =~= escape_char(c));
        assert(escape_char(c) + Seq::<char>::empty() =~= escape_char(c));
    } else {
        assert(s.push(c).drop_first() =~= s.drop_first().push(c));
        lemma_escape_push(s.drop_first(), c);
        assert(escape(s.push(c)) =~= escape_char(s[0]) + escape(s.drop_first().push(c)));
        assert(escape(s.push(c)) =~= escape(s) + escape_char(c));
    }
}

proof fn lemma_byte_items_push(b: Seq<u8>, x: u8)
    ensures
        b.len() == 0 ==> byte_items(b.push(x)) == decimal(x),
        b.len() > 0 ==> byte_items(b.push(x)) == byte_items(b) + seq![','] + decimal(x),
    decreases b.len(),
{
    if b.len() == 0 {
        assert(b.push(x)[0] == x);
    } else if b.len() == 1 {
        assert(b.push(x).drop_first() =~= seq![x]);
        assert(byte_items(seq![x]) == decimal(x));
    } else {
        assert(b.push(x).drop_first() =~= b.drop_first().push(x));
        lemma_byte_items_push(b.drop_first(), x);
        assert(byte_items(b.push(x)) =~= byte_items(b) + seq![','] + decimal(x));
    }
}

fn hex_digit_exec(n: u32) -> (c: char)
    requires
        n < 16,
    ensures
        c == hex_digit(n),
{
    if n < 10 {
        ((n + 48) as u8) as char
    } else {
        ((n + 87) as u8) as char
    }
}

fn dec_digit_exec(n: u8) -> (c: char)
    requires
        n < 10,
    ensures
        c == dec_digit(n),
{
    (n + 48) as char
}

/// Appends how `c` is written inside a JSON string.
fn write_escaped_char(out: &mut String, c: char)
    ensures
        final(out)@ == old(out)@ + escape_char(c),
{
    let ghost o = out@;
    if c == '"' {
        push_char(out, '\\');
        push_char(out, '"');
    } else if c == '\\' {
        push_char(out, '\\');
        push_char(out, '\\');
    } else if c == '\x08' {
        push_char(out, '\\');
        push_char(out, 'b');
    } else if c == '\x0C' {
        push_char(out, '\\');
        push_char(out, 'f');
    } else if c == '\n' {
        push_char(out, '\\');
        push_char(out, 'n');
    } else if c == '\r' {
        push_char(out, '\\');
        push_char(out, 'r');
    } else if c == '\t' {
        push_char(out, '\\');
        push_char(out, 't');
    } else if (c as u32) < 0x20 {
        push_char(out, '\\');
        push_char(out, 'u');
        push_char(out, '0');
        push_char(out, '0');
        push_char(out, hex_digit_exec((c as u32) / 16));
        push_char(out, hex_digit_exec((c as u32) % 16));
    } else {
        push_char(out, c);
    }
    assert(out@ =~= o + escape_char(c));
}

/// Appends `s` written as a JSON string literal.
pub fn write_json_string(out: &mut String, s: &str)
    ensures
        final(out)@ == old(out)@ + json_string(s@),
{
    let ghost o = out@;
    let cs = crate::text::chars_of(s);
    push_char(out, '"');
    let n = cs.len();
    for i in 0..n
        invariant
            n == cs@.len(),
            cs@ == s@,
            out@ == o + seq!['"'] + escape(cs@.take(i as int)),
    {
        let ghost before = out@;
        write_escaped_char(out, cs[i]);
        proof {
            assert(cs@.take(i + 1) =~= cs@.take(i as int).push(cs@[i as int]));
            lemma_escape_push(cs@.take(i as int), cs@[i as int]);
        }
    }
    assert(cs@.take(n as int) =~= s@);
    push_char(out, '"');
    assert(out@ =~= o + json_string(s@));
}

/// Appends a byte written in decimal.
fn write_decimal(out: &mut String, b: u8)
    ensures
        final(out)@ == old(out)@ + decimal(b),
{
    let ghost o = out@;
    if b < 10 {
        push_char(out, dec_digit_exec(b));
    } else if b < 100 {
        push_char(out, dec_digit_exec(b / 10));
        push_char(out, dec_digit_exec(b % 10));
    } else {
        push_char(out, dec_digit_exec(b / 100));
        push_char(out, dec_digit_exec((b / 10) % 10));
        push_char(out, dec_digit_exec(b % 10));
    }
    assert(out@ =~= o + decimal(b));
}

/// Appends a byte buffer as an array of decimal numbers.
pub fn write_bytes(out: &mut String, b: &[u8])
    ensures
        final(out)@ == old(out)@ + field_json(FieldView::Bytes(b@)),
{
    let ghost o = out@;
    push_char(out, '[');
    let n = b.len();
    for i in 0..n
        invariant
            n == b@.len(),
            out@ == o + seq!['['] + byte_items(b@.take(i as int)),
    {
        proof {
            assert(b@.take(i + 1) =~= b@.take(i as int).push(b@[i as int]));
            lemma_byte_items_push(b@.take(i as int), b@[i as int]);
        }
        if i > 0 {
            push_char(out, ',');
        }
        write_decimal(out, b[i]);
        assert(out@ =~= o + seq!['['] + byte_items(b@.take(i + 1)));
    }
    assert(b@.take(n as int) =~= b@);
    push_char(out, ']');
    assert(out@ =~= o + field_json(FieldView::Bytes(b@)));
}

/// Appends an optional string: the string literal, or `null`.
pub fn write_opt_string(out: &mut String, o: &Option<String>)
    ensures
        final(out)@ == old(out)@ + field_json(FieldView::OptText(opt_view(*o))),
{
    let ghost before = out@;
    match o {
        Some(t) => write_json_string(out, t.as_str()),
        None => {
            push_char(out, 'n');
            push_char(out, 'u');
            push_char(out, 'l');
            push_char(out, 'l');
            assert(out@ =~= before + field_json(FieldView::OptText(None)));
        },
    }
}

// ---------------------------------------------------------------------------
// What is written is read back
// ---------------------------------------------------------------------------

/// `s` holds the text `t` at position `i`.
pub open spec fn text_at(s: Seq<char>, i: int, t: Seq<char>) -> bool {
    0 <= i && i + t.len() <= s.len() && s.subrange(i, i + t.len()) == t
}

pub proof fn lemma_text_at_split(s: Seq<char>, i: int, a: Seq<char>, b: Seq<char>)
    requires
        text_at(s, i, a + b),
    ensures
        text_at(s, i, a),
        text_at(s, i + a.len(), b),
{
    assert forall|k: int| 0 <= k < a.len() implies s.subrange(i, i + a.len())[k] == a[k] by {
        assert(s.subrange(i, i + (a + b).len())[k] == (a + b)[k]);
    }
    assert(s.subrange(i, i + a.len()) =~= a);
    assert forall|k: int| 0 <= k < b.len() implies s.subrange(i + a.len(), i + a.len() + b.len())[k]
        == b[k] by {
        assert(s.subrange(i, i + (a + b).len())[a.len() + k] == (a + b)[a.len() + k]);
    }
    assert(s.subrange(i + a.len(), i + a.len() + b.len()) =~= b);
}

proof fn lemma_text_at_index(s: Seq<char>, i: int, t: Seq<char>, k: int)
    requires
        text_at(s, i, t),
        0 <= k < t.len(),
    ensures
        s[i + k] == t[k],
{
    assert(s.subrange(i, i + t.len())[k] == t[k]);
}

proof fn lemma_skip_ws_at_non_ws(s: Seq<char>, i: int)
    requires
        0 <= i <= s.len(),
        i < s.len() ==> !is_ws(s[i]),
    ensures
        skip_ws(s, i) == i,
{
}

proof fn lemma_hex_digit_value(n: u32)
    requires
        n < 16,
    ensures
        hex_value(hex_digit(n)) == Some(n),
{
}

/// Reading one escaped character advances past exactly its escape.
proof fn lemma_escape_char_step(s: Seq<char>, i: int, c: char, acc: Seq<char>)
    requires
        text_at(s, i, escape_char(c)),
    ensures
        string_body(s, i, acc) == string_body(s, i + escape_char(c).len(), acc.push(c)),
{
    let e = escape_char(c);
    lemma_text_at_index(s, i, e, 0);
    if e.len() == 1 {
        assert(s[i] == c);
    } else if e.len() == 2 {
        lemma_text_at_index(s, i, e, 1);
        assert(escape_at(s, i + 1) == Some((c, i + 2)));
    } else {
        lemma_text_at_index(s, i, e, 1);
        lemma_text_at_index(s, i, e, 2);
        lemma_text_at_index(s, i, e, 3);
        lemma_text_at_index(s, i, e, 4);
        lemma_text_at_index(s, i, e, 5);
        let n = c as u32;
        lemma_hex_digit_value(n / 16);
        lemma_hex_digit_value(n % 16);
        assert(hex4(s, i + 2) == Some(n));
        assert(unicode_escape(s, i + 2) == Some((c, i + 6)));
        assert(escape_at(s, i + 1) == Some((c, i + 6)));
    }
}

/// A string written by [`escape`] and closed by a quote reads back as
/// itself.
proof fn lemma_string_body_escaped(s: Seq<char>, i: int, acc: Seq<char>, x: Seq<char>)
    requires
        text_at(s, i, escape(x) + seq!['"']),
    ensures
        string_body(s, i, acc) == Some((acc + x, i + escape(x).len() + 1)),
    decreases x.len(),
{
    if x.len() == 0 {
        assert(escape(x) =~= Seq::<char>::empty());
        lemma_text_at_index(s, i, escape(x) + seq!['"'], 0);
        assert(acc + x =~= acc);
    } else {
        let c = x[0];
        let rest = x.drop_first();
        let e = escape_char(c);
        assert(escape(x) == e + escape(rest));
        assert(escape(x) + seq!['"'] =~= e + (escape(rest) + seq!['"']));
        lemma_text_at_split(s, i, e, escape(rest) + seq!['"']);
        lemma_string_body_escaped(s, i + e.len(), acc.push(c), rest);
        assert(acc.push(c) + rest =~= acc + x);
        lemma_escape_char_step(s, i, c, acc);
    }
}

/// A JSON string literal reads back as the string.
pub proof fn lemma_json_string_reads_back(s: Seq<char>, i: int, x: Seq<char>)
    requires
        text_at(s, i, json_string(x)),
    ensures
        s[i] == '"',
        string_body(s, i + 1, Seq::empty()) == Some((x, i + json_string(x).len())),
{
    assert(json_string(x) =~= seq!['"'] + (escape(x) + seq!['"']));
    lemma_text_at_split(s, i, seq!['"'], escape(x) + seq!['"']);
    lemma_text_at_index(s, i, seq!['"'], 0);
    lemma_string_body_escaped(s, i + 1, Seq::empty(), x);
    assert(Seq::<char>::empty() + x =~= x);
}

/// A byte written in decimal reads back, when a comma or a bracket follows.
proof fn lemma_byte_reads_back(s: Seq<char>, q: int, b: u8)
    requires
        text_at(s, q, decimal(b)),
        q + decimal(b).len() < s.len(),
        s[q + decimal(b).len()] == ',' || s[q + decimal(b).len()] == ']',
    ensures
        byte_at(s, q) == Some((b, q + decimal(b).len())),
{
    let d = decimal(b);
    let n = d.len();
    lemma_text_at_index(s, q, d, 0);
    if n >= 2 {
        lemma_text_at_index(s, q, d, 1);
    }
    if n >= 3 {
        lemma_text_at_index(s, q, d, 2);
    }
    assert(digits_end(s, q + n) == q + n);
    if n == 1 {
        assert(digits_end(s, q) == q + 1);
        assert(digits_value(s, q, q) == 0);
        assert(digits_value(s, q, q + 1) == b);
    } else if n == 2 {
        assert(digits_end(s, q + 1) == q + 2);
        assert(digits_end(s, q) == q + 2);
        assert(digits_value(s, q, q) == 0);
        assert(digits_value(s, q, q + 1) == b / 10);
        assert(digits_value(s, q, q + 2) == b);
    } else {
        assert(digits_end(s, q + 2) == q + 3);
        assert(digits_end(s, q + 1) == q + 3);
        assert(digits_end(s, q) == q + 3);
        assert(digits_value(s, q, q) == 0);
        assert(digits_value(s, q, q + 1) == b / 100);
        assert(digits_value(s, q, q + 2) == b / 10);
        assert(digits_value(s, q, q + 3) == b);
    }
}

/// What follows the first element of a byte array: a comma and the rest,
/// or nothing.
pub open spec fn bytes_tail(b: Seq<u8>) -> Seq<char> {
    if b.len() == 0 {
        Seq::empty()
    } else {
        seq![','] + byte_items(b)
    }
}

proof fn lemma_byte_items_split(b: Seq<u8>)
    requires
        b.len() > 0,
    ensures
        byte_items(b) == decimal(b[0]) + bytes_tail(b.drop_first()),
{
    if b.len() == 1 {
        assert(b.drop_first().len() == 0);
        assert(decimal(b[0]) + bytes_tail(b.drop_first()) =~= decimal(b[0]));
    } else {
        assert(byte_items(b) =~= decimal(b[0]) + bytes_tail(b.drop_first()));
    }
}

proof fn lemma_bytes_rest_tail(s: Seq<char>, i: int, acc: Seq<u8>, b: Seq<u8>)
    requires
        text_at(s, i, bytes_tail(b) + seq![']']),
    ensures
        bytes_rest(s, i, false, acc) == Some((acc + b, i + bytes_tail(b).len() + 1)),
    decreases b.len(),
{
    if b.len() == 0 {
        assert(bytes_tail(b) + seq![']'] =~= seq![']']);
        lemma_text_at_index(s, i, seq![']'], 0);
        lemma_skip_ws_at_non_ws(s, i);
        assert(acc + b =~= acc);
    } else {
        let d = decimal(b[0]);
        let rest = b.drop_first();
        lemma_byte_items_split(b);
        assert(bytes_tail(b) + seq![']'] =~= seq![','] + d + (bytes_tail(rest) + seq![']']));
        lemma_text_at_split(s, i, seq![','] + d, bytes_tail(rest) + seq![']']);
        lemma_text_at_split(s, i, seq![','], d);
        lemma_text_at_index(s, i, seq![','], 0);
        lemma_skip_ws_at_non_ws(s, i);
        lemma_text_at_index(s, i + 1, d, 0);
        lemma_skip_ws_at_non_ws(s, i + 1);
        let e = i + 1 + d.len();
        if rest.len() == 0 {
            assert(bytes_tail(rest) + seq![']'] =~= seq![']']);
        } else {
            assert(bytes_tail(rest) + seq![']'] =~= seq![','] + (byte_items(rest) + seq![']']));
        }
        lemma_text_at_index(s, e, bytes_tail(rest) + seq![']'], 0);
        lemma_byte_reads_back(s, i + 1, b[0]);
        lemma_bytes_rest_tail(s, e, acc.push(b[0]), rest);
        assert(acc.push(b[0]) + rest =~= acc + b);
    }
}

/// A byte array written by [`field_json`] reads back.
proof fn lemma_bytes_reads_back(s: Seq<char>, i: int, b: Seq<u8>)
    requires
        text_at(s, i, byte_items(b) + seq![']']),
    ensures
        bytes_rest(s, i, true, Seq::empty()) == Some((b, i + byte_items(b).len() + 1)),
{
    if b.len() == 0 {
        assert(byte_items(b) + seq![']'] =~= seq![']']);
        lemma_text_at_index(s, i, seq![']'], 0);
        lemma_skip_ws_at_non_ws(s, i);
        assert(b =~= Seq::<u8>::empty());
    } else {
        let d = decimal(b[0]);
        let rest = b.drop_first();
        lemma_byte_items_split(b);
        assert(byte_items(b) + seq![']'] =~= d + (bytes_tail(rest) + seq![']']));
        lemma_text_at_split(s, i, d, bytes_tail(rest) + seq![']']);
        lemma_text_at_index(s, i, d, 0);
        lemma_skip_ws_at_non_ws(s, i);
        let e = i + d.len();
        if rest.len() == 0 {
            assert(bytes_tail(rest) + seq![']'] =~= seq![']']);
        } else {
            assert(bytes_tail(rest) + seq![']'] =~= seq![','] + (byte_items(rest) + seq![']']));
        }
        lemma_text_at_index(s, e, bytes_tail(rest) + seq![']'], 0);
        lemma_byte_reads_back(s, i, b[0]);
        lemma_bytes_rest_tail(s, e, Seq::empty().push(b[0]), rest);
        assert(Seq::<u8>::empty().push(b[0]) + rest =~= b);
    }
}

/// A field value reads back as itself, as a value of its kind.
pub proof fn lemma_field_reads_back(s: Seq<char>, i: int, v: FieldView)
    requires
        text_at(s, i, field_json(v)),
    ensures
        value_at(s, i, kind_of(v)) == Some((v, i + field_json(v).len())),
{
    let t = field_json(v);
    lemma_text_at_index(s, i, t, 0);
    lemma_skip_ws_at_non_ws(s, i);
    match v {
        FieldView::Text(x) => {
            lemma_json_string_reads_back(s, i, x);
        },
        FieldView::OptText(None) => {
            lemma_text_at_index(s, i, t, 1);
            lemma_text_at_index(s, i, t, 2);
            lemma_text_at_index(s, i, t, 3);
        },
        FieldView::OptText(Some(x)) => {
            lemma_json_string_reads_back(s, i, x);
        },
        FieldView::Bytes(b) => {
            assert(t =~= seq!['['] + (byte_items(b) + seq![']']));
            lemma_text_at_split(s, i, seq!['['], byte_items(b) + seq![']']);
            lemma_bytes_reads_back(s, i + 1, b);
        },
    }
}

/// Field names with no name given twice.
pub open spec fn distinct_names(names: Seq<Seq<char>>) -> bool {
    forall|a: int, b: int| 0 <= a < names.len() && 0 <= b < names.len() && a != b ==> names[a] != names[b]
}

/// Values whose kinds are the declared kinds.
pub open spec fn kinds_match(kinds: Seq<FieldKind>, vals: Seq<FieldView>) -> bool {
    kinds.len() == vals.len() && forall|j: int| 0 <= j < vals.len() ==> kinds[j] == kind_of(#[trigger] vals[j])
}

/// The slots after the first `k` fields have been given their values.
pub open spec fn slots_with(vals: Seq<FieldView>, k: int) -> Seq<Option<FieldView>> {
    Seq::new(vals.len(), |j: int| if j < k { Some(vals[j]) } else { None })
}

/// One `name:value` entry.
pub open spec fn entry_json(names: Seq<Seq<char>>, vals: Seq<FieldView>, k: int) -> Seq<char> {
    json_string(names[k]) + seq![':'] + field_json(vals[k])
}

/// The entries from the `k`-th on, each after a comma.
pub open spec fn entries_tail(names: Seq<Seq<char>>, vals: Seq<FieldView>, k: int) -> Seq<char> {
    if k >= vals.len() {
        Seq::empty()
    } else {
        seq![','] + entries_json(names.skip(k), vals.skip(k))
    }
}

proof fn lemma_index_of_distinct(names: Seq<Seq<char>>, k: int)
    requires
        0 <= k < names.len(),
        distinct_names(names),
    ensures
        index_of(names, names[k]) == Some(k),
    decreases names.len(),
{
    if k < names.len() - 1 {
        assert(names.last() != names[k]);
        let d = names.drop_last();
        assert(d[k] == names[k]);
        lemma_index_of_distinct(d, k);
    }
}

proof fn lemma_complete_all_given(kinds: Seq<FieldKind>, vals: Seq<FieldView>)
    requires
        kinds.len() == vals.len(),
    ensures
        complete_fields(kinds, slots_with(vals, vals.len() as int)) == Some(vals),
    decreases vals.len(),
{
    let acc = slots_with(vals, vals.len() as int);
    if vals.len() == 0 {
        assert(acc.len() == 0);
        assert(vals =~= Seq::<FieldView>::empty());
    } else {
        assert(acc.drop_last() =~= slots_with(vals.drop_last(), vals.drop_last().len() as int));
        lemma_complete_all_given(kinds.drop_last(), vals.drop_last());
        assert(acc.last() == Some(vals.last()));
        assert(vals.drop_last().push(vals.last()) =~= vals);
    }
}

proof fn lemma_entries_split(names: Seq<Seq<char>>, vals: Seq<FieldView>, k: int)
    requires
        names.len() == vals.len(),
        0 <= k < vals.len(),
    ensures
        entries_json(names.skip(k), vals.skip(k)) == entry_json(names, vals, k) + entries_tail(
            names,
            vals,
            k + 1,
        ),
{
    let ns = names.skip(k);
    let vs = vals.skip(k);
    assert(ns[0] == names[k]);
    assert(vs[0] == vals[k]);
    if k == vals.len() - 1 {
        assert(entries_tail(names, vals, k + 1) =~= Seq::<char>::empty());
        assert(entries_json(ns, vs) =~= entry_json(names, vals, k) + entries_tail(names, vals, k + 1));
    } else {
        assert(ns.drop_first() =~= names.skip(k + 1));
        assert(vs.drop_first() =~= vals.skip(k + 1));
        assert(entries_json(ns, vs) =~= entry_json(names, vals, k) + entries_tail(names, vals, k + 1));
    }
}

/// Reading the `k`-th entry, whose opening quote is at `q`.
proof fn lemma_object_entry(
    s: Seq<char>,
    i: int,
    q: int,
    first: bool,
    names: Seq<Seq<char>>,
    kinds: Seq<FieldKind>,
    vals: Seq<FieldView>,
    k: int,
)
    requires
        names.len() == vals.len(),
        distinct_names(names),
        kinds_match(kinds, vals),
        0 <= k < vals.len(),
        0 <= i <= q,
        first ==> q == i,
        !first ==> q == i + 1 && s[i] == ',',
        text_at(s, q, entry_json(names, vals, k)),
        q + entry_json(names, vals, k).len() <= s.len(),
    ensures
        object_rest(s, i, first, names, kinds, slots_with(vals, k)) == object_rest(
            s,
            q + entry_json(names, vals, k).len(),
            false,
            names,
            kinds,
            slots_with(vals, k + 1),
        ),
{
    let js = json_string(names[k]);
    let fj = field_json(vals[k]);
    assert(entry_json(names, vals, k) =~= js + (seq![':'] + fj));
    lemma_text_at_split(s, q, js, seq![':'] + fj);
    lemma_text_at_split(s, q + js.len(), seq![':'], fj);
    lemma_json_string_reads_back(s, q, names[k]);
    lemma_text_at_index(s, q + js.len(), seq![':'], 0);
    lemma_skip_ws_at_non_ws(s, q + js.len());
    assert(s[q] == '"');
    lemma_skip_ws_at_non_ws(s, i);
    if !first {
        lemma_skip_ws_at_non_ws(s, i + 1);
    }
    lemma_index_of_distinct(names, k);
    lemma_field_reads_back(s, q + js.len() + 1, vals[k]);
    assert(slots_with(vals, k).update(k, Some(vals[k])) =~= slots_with(vals, k + 1));
}

proof fn lemma_object_rest_tail(
    s: Seq<char>,
    i: int,
    names: Seq<Seq<char>>,
    kinds: Seq<FieldKind>,
    vals: Seq<FieldView>,
    k: int,
)
    requires
        names.len() == vals.len(),
        distinct_names(names),
        kinds_match(kinds, vals),
        1 <= k <= vals.len(),
        text_at(s, i, entries_tail(names, vals, k) + seq!['}']),
    ensures
        object_rest(s, i, false, names, kinds, slots_with(vals, k)) == Some(
            (slots_with(vals, vals.len() as int), i + entries_tail(names, vals, k).len() + 1),
        ),
    decreases vals.len() - k,
{
    if k == vals.len() {
        assert(entries_tail(names, vals, k) + seq!['}'] =~= seq!['}']);
        lemma_text_at_index(s, i, seq!['}'], 0);
        lemma_skip_ws_at_non_ws(s, i);
    } else {
        lemma_entries_split(names, vals, k);
        let ent = entry_json(names, vals, k);
        let rest = entries_tail(names, vals, k + 1);
        assert(entries_tail(names, vals, k) + seq!['}'] =~= seq![','] + ent + (rest + seq!['}']));
        lemma_text_at_split(s, i, seq![','] + ent, rest + seq!['}']);
        lemma_text_at_split(s, i, seq![','], ent);
        lemma_text_at_index(s, i, seq![','], 0);
        lemma_object_entry(s, i, i + 1, false, names, kinds, vals, k);
        lemma_object_rest_tail(s, i + 1 + ent.len(), names, kinds, vals, k + 1);
    }
}

/// A field object written by [`entries_json`] reads back as the values.
pub proof fn lemma_fields_read_back(
    s: Seq<char>,
    i: int,
    names: Seq<Seq<char>>,
    kinds: Seq<FieldKind>,
    vals: Seq<FieldView>,
)
    requires
        names.len() == vals.len(),
        distinct_names(names),
        kinds_match(kinds, vals),
        text_at(s, i, seq!['{'] + entries_json(names, vals) + seq!['}']),
    ensures
        fields_at(s, i, names, kinds) == Some(
            (vals, i + entries_json(names, vals).len() + 2),
        ),
{
    let body = entries_json(names, vals);
    assert(seq!['{'] + body + seq!['}'] =~= seq!['{'] + (body + seq!['}']));
    lemma_text_at_split(s, i, seq!['{'], body + seq!['}']);
    lemma_text_at_index(s, i, seq!['{'], 0);
    lemma_skip_ws_at_non_ws(s, i);
    assert(Seq::new(kinds.len(), |j: int| None::<FieldView>) =~= slots_with(vals, 0));
    if vals.len() == 0 {
        assert(body =~= Seq::<char>::empty());
        assert(body + seq!['}'] =~= seq!['}']);
        lemma_text_at_index(s, i + 1, seq!['}'], 0);
        lemma_skip_ws_at_non_ws(s, i + 1);
        assert(slots_with(vals, 0) =~= Seq::<Option<FieldView>>::empty());
        assert(complete_fields(kinds, slots_with(vals, 0)) == Some(Seq::<FieldView>::empty()));
        assert(vals =~= Seq::<FieldView>::empty());
    } else {
        assert(names.skip(0) =~= names);
        assert(vals.skip(0) =~= vals);
        lemma_entries_split(names, vals, 0);
        let ent = entry_json(names, vals, 0);
        let rest = entries_tail(names, vals, 1);
        assert(body + seq!['}'] =~= ent + (rest + seq!['}']));
        lemma_text_at_split(s, i + 1, ent, rest + seq!['}']);
        lemma_object_entry(s, i + 1, i + 1, true, names, kinds, vals, 0);
        lemma_object_rest_tail(s, i + 1 + ent.len(), names, kinds, vals, 1);
        lemma_complete_all_given(kinds, vals);
    }
}

/// The text of a variant reads back: its name, then its fields, then the
/// closing brace, with nothing after.
#[verifier::spinoff_prover]
#[verifier::rlimit(30)]
pub proof fn lemma_variant_reads_back(
    name: Seq<char>,
    names: Seq<Seq<char>>,
    kinds: Seq<FieldKind>,
    vals: Seq<FieldView>,
)
    requires
        names.len() == vals.len(),
        distinct_names(names),
        kinds_match(kinds, vals),
    ensures
        ({
            let s = variant_json(name, names, vals);
            let k: int = 1 + json_string(name).len() as int;
            &&& skip_ws(s, 0) == 0
            &&& s[0] == '{'
            &&& string_at(s, 1) == Some((name, k))
            &&& skip_ws(s, k) == k
            &&& 0 <= k < s.len()
            &&& s[k] == ':'
            &&& fields_at(s, k + 1, names, kinds) == Some((vals, s.len() - 1))
            &&& skip_ws(s, s.len() - 1) == s.len() - 1
            &&& s[s.len() - 1] == '}'
            &&& skip_ws(s, s.len() as int) == s.len()
        }),
{
    let s = variant_json(name, names, vals);
    let js = json_string(name);
    let body = seq!['{'] + entries_json(names, vals) + seq!['}'];
    assert(s =~= seq!['{'] + js + seq![':'] + body + seq!['}']);
    assert(s.subrange(0, s.len() as int) =~= s);
    lemma_text_at_split(s, 0, seq!['{'] + js + seq![':'] + body, seq!['}']);
    lemma_text_at_split(s, 0, seq!['{'] + js + seq![':'], body);
    lemma_text_at_split(s, 0, seq!['{'] + js, seq![':']);
    lemma_text_at_split(s, 0, seq!['{'], js);
    lemma_json_string_reads_back(s, 1, name);
    let k: int = 1 + js.len() as int;
    lemma_text_at_index(s, 0, seq!['{'], 0);
    lemma_text_at_index(s, k, seq![':'], 0);
    lemma_skip_ws_at_non_ws(s, 0);
    lemma_skip_ws_at_non_ws(s, 1);
    lemma_skip_ws_at_non_ws(s, k);
    lemma_fields_read_back(s, k + 1, names, kinds, vals);
    let e: int = s.len() - 1;
    lemma_text_at_index(s, e, seq!['}'], 0);
    lemma_skip_ws_at_non_ws(s, e);
    lemma_skip_ws_at_non_ws(s, e + 1);
}

} // verus!
