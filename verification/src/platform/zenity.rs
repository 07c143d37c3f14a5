//! The zenity fallback for Linux desktops without the XDG Desktop Portal
//! (e.g. ChromeOS Crostini).
//!
//! The caller runs `zenity` with the arguments built here and hands back
//! whether it succeeded and what it printed; this module reads the answer.
//! A failed run (exit code 1 when the user cancels) is a cancellation, not
//! an error.

use vstd::prelude::*;
use crate::text::{string_from, chars_of, string_of_chars, push_char};
use crate::platform::desktop::strings_view;

verus! {

// ---------------------------------------------------------------------------
// Arguments
// ---------------------------------------------------------------------------

/// An extension with its leading dots removed.
pub open spec fn trim_leading_dots(e: Seq<char>) -> Seq<char>
    decreases e.len(),
{
    if e.len() > 0 && e[0] == '.' {
        trim_leading_dots(e.drop_first())
    } else {
        e
    }
}

/// The glob that matches files with the extension: `*.ext`.
pub open spec fn glob_of(e: Seq<char>) -> Seq<char> {
    "*."@ + trim_leading_dots(e)
}

/// The globs of the extensions, separated by spaces.
pub open spec fn join_globs(exts: Seq<Seq<char>>) -> Seq<char>
    decreases exts.len(),
{
    if exts.len() == 0 {
        Seq::empty()
    } else if exts.len() == 1 {
        glob_of(exts[0])
    } else {
        join_globs(exts.drop_last()) + " "@ + glob_of(exts.last())
    }
}

/// zenity's `--file-filter` value: `Label | *.ext1 *.ext2`.
pub open spec fn file_filter_arg(label: Seq<char>, exts: Seq<Seq<char>>) -> Seq<char> {
    label + " | "@ + join_globs(exts)
}

/// The arguments of a file-selection dialog with an optional filter (none
/// when there are no extensions).
pub open spec fn open_args(label: Seq<char>, exts: Seq<Seq<char>>) -> Seq<Seq<char>> {
    if exts.len() == 0 {
        seq!["--file-selection"@]
    } else {
        seq!["--file-selection"@, "--file-filter"@, file_filter_arg(label, exts)]
    }
}

pub open spec fn pick_file_args_spec(title: Seq<char>, label: Seq<char>, exts: Seq<Seq<char>>) -> Seq<
    Seq<char>,
> {
    open_args(label, exts) + seq!["--title"@, title]
}

pub open spec fn pick_files_args_spec(title: Seq<char>, label: Seq<char>, exts: Seq<Seq<char>>) -> Seq<
    Seq<char>,
> {
    open_args(label, exts) + seq!["--multiple"@, "--separator"@, "\n"@, "--title"@, title]
}

pub open spec fn pick_save_args_spec(
    title: Seq<char>,
    default_name: Option<Seq<char>>,
    label: Seq<char>,
    exts: Seq<Seq<char>>,
) -> Seq<Seq<char>> {
    open_args(label, exts) + seq!["--save"@, "--confirm-overwrite"@, "--title"@, title] + match default_name {
        Some(n) => seq!["--filename"@, n],
        None => Seq::empty(),
    }
}

fn trim_leading_dots_exec(e: &str) -> (r: String)
    ensures
        r@ == trim_leading_dots(e@),
{
    let cs = chars_of(e);
    let mut i: usize = 0;
    assert(e@.skip(0) =~= e@);
    while i < cs.len() && cs[i] == '.'
        invariant
            cs@ == e@,
            0 <= i <= cs@.len(),
            trim_leading_dots(e@) == trim_leading_dots(e@.skip(i as int)),
        decreases cs@.len() - i,
    {
        assert(e@.skip(i as int).drop_first() =~= e@.skip(i + 1));
        i = i + 1;
    }
    assert(e@.skip(i as int) =~= cs@.subrange(i as int, cs@.len() as int));
    string_of_chars(vstd::slice::slice_subrange(cs.as_slice(), i, cs.len()))
}

/// zenity's `--file-filter` value for the label and the extensions.
fn file_filter_value(label: &str, exts: &[String]) -> (r: String)
    ensures
        r@ == file_filter_arg(label@, strings_view(exts@)),
{
    let mut out = string_from(label);
    out.append(" | ");
    let ghost start = out@;
    let n = exts.len();
    assert(strings_view(exts@).take(0) =~= Seq::<Seq<char>>::empty());
    for i in 0..n
        invariant
            n == exts@.len(),
            start == label@ + " | "@,
            out@ == start + join_globs(strings_view(exts@).take(i as int)),
    {
        let ghost pre = strings_view(exts@).take(i as int);
        let ghost nxt = strings_view(exts@).take(i + 1);
        assert(nxt.drop_last() =~= pre);
        assert(nxt.last() == exts@[i as int]@);
        if i > 0 {
            out.append(" ");
        }
        out.append("*.");
        let t = trim_leading_dots_exec(exts[i].as_str());
        out.append(t.as_str());
        assert(out@ =~= start + join_globs(nxt));
    }
    assert(strings_view(exts@).take(n as int) =~= strings_view(exts@));
    out
}

/// The arguments of zenity's file-selection dialog, with a file filter when
/// there are extensions.
pub fn open_args_exec(filter_label: &str, filter_exts: &[String]) -> (r: Vec<String>)
    ensures
        strings_view(r@) == open_args(filter_label@, strings_view(filter_exts@)),
{
    let mut args: Vec<String> = Vec::new();
    args.push(string_from("--file-selection"));
    if filter_exts.len() != 0 {
        args.push(string_from("--file-filter"));
        args.push(file_filter_value(filter_label, filter_exts));
    }
    assert(strings_view(args@) =~= open_args(filter_label@, strings_view(filter_exts@)));
    args
}

/// The arguments of a single-file zenity dialog.
pub fn pick_file_args(title: &str, filter_label: &str, filter_exts: &[String]) -> (r: Vec<String>)
    ensures
        strings_view(r@) == pick_file_args_spec(title@, filter_label@, strings_view(filter_exts@)),
{
    let mut args = open_args_exec(filter_label, filter_exts);
    let ghost a = strings_view(args@);
    args.push(string_from("--title"));
    args.push(string_from(title));
    assert(strings_view(args@) =~= a + seq!["--title"@, title@]);
    args
}

/// The arguments of a multi-file zenity dialog, one path per line.
pub fn pick_files_args(title: &str, filter_label: &str, filter_exts: &[String]) -> (r: Vec<String>)
    ensures
        strings_view(r@) == pick_files_args_spec(title@, filter_label@, strings_view(filter_exts@)),
{
    let mut args = open_args_exec(filter_label, filter_exts);
    let ghost a = strings_view(args@);
    args.push(string_from("--multiple"));
    args.push(string_from("--separator"));
    args.push(string_from("\n"));
    args.push(string_from("--title"));
    args.push(string_from(title));
    assert(strings_view(args@) =~= a + seq!["--multiple"@, "--separator"@, "\n"@, "--title"@, title@]);
    args
}

/// The arguments of a zenity save dialog, with the suggested name when
/// there is one.
pub fn pick_save_args(
    title: &str,
    default_name: Option<&str>,
    filter_label: &str,
    filter_exts: &[String],
) -> (r: Vec<String>)
    ensures
        strings_view(r@) == pick_save_args_spec(
            title@,
            match default_name {
                Some(n) => Some(n@),
                None => None,
            },
            filter_label@,
            strings_view(filter_exts@),
        ),
{
    let mut args = open_args_exec(filter_label, filter_exts);
    let ghost a = strings_view(args@);
    args.push(string_from("--save"));
    args.push(string_from("--confirm-overwrite"));
    args.push(string_from("--title"));
    args.push(string_from(title));
    let ghost b = strings_view(args@);
    assert(b =~= a + seq!["--save"@, "--confirm-overwrite"@, "--title"@, title@]);
    match default_name {
        Some(n) => {
            args.push(string_from("--filename"));
            args.push(string_from(n));
            assert(strings_view(args@) =~= b + seq!["--filename"@, n@]);
        },
        None => {
            assert(strings_view(args@) =~= b + Seq::<Seq<char>>::empty());
        },
    }
    args
}

// ---------------------------------------------------------------------------
// Laws of the arguments
// ---------------------------------------------------------------------------

/// An extension is its leading dots followed by what is left after
/// trimming them, which does not itself start with a dot.
pub proof fn lemma_trim_leading_dots(e: Seq<char>)
    ensures
        trim_leading_dots(e).len() <= e.len(),
        e.skip(e.len() - trim_leading_dots(e).len()) == trim_leading_dots(e),
        forall|j: int| 0 <= j < e.len() - trim_leading_dots(e).len() ==> e[j] == '.',
        trim_leading_dots(e).len() > 0 ==> trim_leading_dots(e)[0] != '.',
    decreases e.len(),
{
    if e.len() > 0 && e[0] == '.' {
        lemma_trim_leading_dots(e.drop_first());
        let t = trim_leading_dots(e.drop_first());
        assert(e.skip(e.len() - t.len()) =~= e.drop_first().skip(e.drop_first().len() - t.len()));
        assert forall|j: int| 0 <= j < e.len() - t.len() implies e[j] == '.' by {
            if j > 0 {
                assert(e[j] == e.drop_first()[j - 1]);
            }
        }
    } else {
        assert(e.skip(0) =~= e);
    }
}

/// The glob list of one extension is its glob, `*.` and the extension
/// without its leading dots.
pub proof fn lemma_join_globs_one(e: Seq<char>)
    ensures
        join_globs(seq![e]) == "*."@ + trim_leading_dots(e),
{
}

/// The glob list of two non-empty runs of extensions is the two lists with
/// one space between them: every two neighbouring globs are separated by
/// exactly one space.
pub proof fn lemma_join_globs_concat(a: Seq<Seq<char>>, b: Seq<Seq<char>>)
    requires
        a.len() > 0,
        b.len() > 0,
    ensures
        join_globs(a + b) == join_globs(a) + " "@ + join_globs(b),
    decreases b.len(),
{
    assert((a + b).drop_last() =~= a + b.drop_last());
    assert((a + b).last() == b.last());
    if b.len() == 1 {
        assert(a + b.drop_last() =~= a);
    } else {
        lemma_join_globs_concat(a, b.drop_last());
        assert(join_globs(a + b) =~= join_globs(a) + " "@ + join_globs(b));
    }
}

/// The file-selection dialog that opens one file: `--file-selection`, then
/// a `--file-filter` of `label | globs` only when there are extensions
/// (with none, every file is shown), then `--title` and the title.
pub proof fn lemma_pick_file_args(title: Seq<char>, label: Seq<char>, exts: Seq<Seq<char>>)
    ensures
        exts.len() == 0 ==> pick_file_args_spec(title, label, exts) == seq![
            "--file-selection"@,
            "--title"@,
            title,
        ],
        exts.len() > 0 ==> pick_file_args_spec(title, label, exts) == seq![
            "--file-selection"@,
            "--file-filter"@,
            label + " | "@ + join_globs(exts),
            "--title"@,
            title,
        ],
{
    assert(pick_file_args_spec(title, label, exts) =~= if exts.len() == 0 {
        seq!["--file-selection"@, "--title"@, title]
    } else {
        seq!["--file-selection"@, "--file-filter"@, label + " | "@ + join_globs(exts), "--title"@, title]
    });
}

/// The file-selection dialog that opens several files: the same dialog and
/// filter as for one file (a `--file-filter` of `label | globs` exactly when
/// there are extensions), then `--multiple`, a newline `--separator`, and
/// `--title` with the title.
pub proof fn lemma_pick_files_args(title: Seq<char>, label: Seq<char>, exts: Seq<Seq<char>>)
    ensures
        exts.len() == 0 ==> pick_files_args_spec(title, label, exts) == seq![
            "--file-selection"@,
            "--multiple"@,
            "--separator"@,
            "\n"@,
            "--title"@,
            title,
        ],
        exts.len() > 0 ==> pick_files_args_spec(title, label, exts) == seq![
            "--file-selection"@,
            "--file-filter"@,
            label + " | "@ + join_globs(exts),
            "--multiple"@,
            "--separator"@,
            "\n"@,
            "--title"@,
            title,
        ],
        ({
            let k: int = if exts.len() == 0 { 1 } else { 3 };
            pick_files_args_spec(title, label, exts).take(k) == pick_file_args_spec(title, label, exts).take(k)
        }),
{
    lemma_pick_file_args(title, label, exts);
    if exts.len() == 0 {
        assert(pick_files_args_spec(title, label, exts) =~= seq![
            "--file-selection"@,
            "--multiple"@,
            "--separator"@,
            "\n"@,
            "--title"@,
            title,
        ]);
        assert(pick_files_args_spec(title, label, exts).take(1) =~= pick_file_args_spec(title, label, exts).take(1));
    } else {
        assert(pick_files_args_spec(title, label, exts) =~= seq![
            "--file-selection"@,
            "--file-filter"@,
            label + " | "@ + join_globs(exts),
            "--multiple"@,
            "--separator"@,
            "\n"@,
            "--title"@,
            title,
        ]);
        assert(pick_files_args_spec(title, label, exts).take(3) =~= pick_file_args_spec(title, label, exts).take(3));
    }
}

/// The save dialog: the file-selection dialog with its filter (exactly when
/// there are extensions), `--save`, `--confirm-overwrite`, `--title` and the
/// title; a suggested name adds `--filename` and the name at the end,
/// whatever the extensions, and changes nothing else.
pub proof fn lemma_pick_save_args(title: Seq<char>, name: Seq<char>, label: Seq<char>, exts: Seq<Seq<char>>)
    ensures
        pick_save_args_spec(title, Some(name), label, exts) == pick_save_args_spec(title, None, label, exts)
            + seq!["--filename"@, name],
        exts.len() == 0 ==> pick_save_args_spec(title, None, label, exts) == seq![
            "--file-selection"@,
            "--save"@,
            "--confirm-overwrite"@,
            "--title"@,
            title,
        ],
        exts.len() > 0 ==> pick_save_args_spec(title, None, label, exts) == seq![
            "--file-selection"@,
            "--file-filter"@,
            label + " | "@ + join_globs(exts),
            "--save"@,
            "--confirm-overwrite"@,
            "--title"@,
            title,
        ],
{
    let none = pick_save_args_spec(title, None, label, exts);
    assert(pick_save_args_spec(title, Some(name), label, exts) =~= none + seq!["--filename"@, name]);
    if exts.len() == 0 {
        assert(none =~= seq!["--file-selection"@, "--save"@, "--confirm-overwrite"@, "--title"@, title]);
    } else {
        assert(none =~= seq![
            "--file-selection"@,
            "--file-filter"@,
            label + " | "@ + join_globs(exts),
            "--save"@,
            "--confirm-overwrite"@,
            "--title"@,
            title,
        ]);
    }
}

// ---------------------------------------------------------------------------
// Output
// ---------------------------------------------------------------------------

/// The Unicode `White_Space` property (what `char::is_whitespace` tests).
pub open spec fn is_white_space(c: char) -> bool {
    let u = c as u32;
    (0x09 <= u && u <= 0x0D) || u == 0x20 || u == 0x85 || u == 0xA0 || u == 0x1680 || (0x2000 <= u
        && u <= 0x200A) || u == 0x2028 || u == 0x2029 || u == 0x202F || u == 0x205F || u == 0x3000
}

/// Whether `c` has the Unicode `White_Space` property.
pub fn is_white_space_exec(c: char) -> (r: bool)
    ensures
        r == is_white_space(c),
{
    let u = c as u32;
    (0x09 <= u && u <= 0x0D) || u == 0x20 || u == 0x85 || u == 0xA0 || u == 0x1680 || (0x2000 <= u
        && u <= 0x200A) || u == 0x2028 || u == 0x2029 || u == 0x202F || u == 0x205F || u == 0x3000
}

/// `s` without its leading white space.
pub open spec fn trim_start(s: Seq<char>) -> Seq<char>
    decreases s.len(),
{
    if s.len() > 0 && is_white_space(s[0]) {
        trim_start(s.drop_first())
    } else {
        s
    }
}

/// `s` without its trailing white space.
pub open spec fn trim_end(s: Seq<char>) -> Seq<char>
    decreases s.len(),
{
    if s.len() > 0 && is_white_space(s.last()) {
        trim_end(s.drop_last())
    } else {
        s
    }
}

/// `s` without leading and trailing white space (`str::trim`).
pub open spec fn trim(s: Seq<char>) -> Seq<char> {
    trim_end(trim_start(s))
}

/// What a single-file dialog printed: nothing after a failed run (the user
/// cancelled), otherwise the printed text trimmed, when not empty.
pub open spec fn single_output(success: bool, stdout: Seq<char>) -> Option<Seq<char>> {
    if !success || trim(stdout).len() == 0 {
        None
    } else {
        Some(trim(stdout))
    }
}

proof fn lemma_trim_start(s: Seq<char>)
    ensures
        trim_start(s).len() <= s.len(),
        trim_start(s) == s.skip(s.len() - trim_start(s).len()),
        forall|j: int| 0 <= j < s.len() - trim_start(s).len() ==> is_white_space(s[j]),
        trim_start(s).len() > 0 ==> !is_white_space(trim_start(s)[0]),
    decreases s.len(),
{
    if s.len() > 0 && is_white_space(s[0]) {
        lemma_trim_start(s.drop_first());
        let t = trim_start(s.drop_first());
        assert(s.skip(s.len() - t.len()) =~= s.drop_first().skip(s.drop_first().len() - t.len()));
        assert forall|j: int| 0 <= j < s.len() - t.len() implies is_white_space(s[j]) by {
            if j > 0 {
                assert(s[j] == s.drop_first()[j - 1]);
            }
        }
    } else {
        assert(s.skip(0) =~= s);
    }
}

proof fn lemma_trim_end(s: Seq<char>)
    ensures
        trim_end(s).len() <= s.len(),
        trim_end(s) == s.take(trim_end(s).len() as int),
        forall|j: int| trim_end(s).len() <= j < s.len() ==> is_white_space(s[j]),
        trim_end(s).len() > 0 ==> !is_white_space(trim_end(s).last()),
    decreases s.len(),
{
    if s.len() > 0 && is_white_space(s.last()) {
        lemma_trim_end(s.drop_last());
        let t = trim_end(s.drop_last());
        assert(s.take(t.len() as int) =~= s.drop_last().take(t.len() as int));
        assert forall|j: int| t.len() <= j < s.len() implies is_white_space(s[j]) by {
            if j < s.len() - 1 {
                assert(s[j] == s.drop_last()[j]);
            }
        }
    } else {
        assert(s.take(s.len() as int) =~= s);
    }
}

/// Trimming removes white space at both ends and nothing else: the result
/// is a contiguous part of the text, everything cut off before and after
/// it is white space, and it neither starts nor ends with white space.
pub proof fn lemma_trim(s: Seq<char>)
    ensures
        exists|a: int, b: int|
            {
                &&& 0 <= a <= b <= s.len()
                &&& trim(s) == s.subrange(a, b)
                &&& forall|j: int| 0 <= j < a ==> is_white_space(#[trigger] s[j])
                &&& forall|j: int| b <= j < s.len() ==> is_white_space(#[trigger] s[j])
            },
        trim(s).len() > 0 ==> !is_white_space(trim(s)[0]) && !is_white_space(trim(s).last()),
{
    let u = trim_start(s);
    let t = trim_end(u);
    lemma_trim_start(s);
    lemma_trim_end(u);
    let a = s.len() - u.len();
    let b = a + t.len();
    assert(s.subrange(a, b) =~= t) by {
        assert forall|j: int| 0 <= j < t.len() implies s.subrange(a, b)[j] == t[j] by {
            assert(t[j] == u.take(t.len() as int)[j]);
            assert(u[j] == s.skip(a)[j]);
        }
    }
    assert forall|j: int| b <= j < s.len() implies is_white_space(#[trigger] s[j]) by {
        assert(s[j] == s.skip(a)[j - a]);
    }
    if t.len() > 0 {
        assert(t[0] == u[0]);
    }
}

/// `s` trimmed (see [`trim`]).
pub fn trim_exec(s: &str) -> (r: String)
    ensures
        r@ == trim(s@),
{
    let cs = chars_of(s);
    let n = cs.len();
    let mut a: usize = 0;
    assert(s@.skip(0) =~= s@);
    while a < n && is_white_space_exec(cs[a])
        invariant
            cs@ == s@,
            n == cs@.len(),
            0 <= a <= n,
            trim_start(s@) == trim_start(s@.skip(a as int)),
        decreases n - a,
    {
        assert(s@.skip(a as int).drop_first() =~= s@.skip(a + 1));
        a = a + 1;
    }
    let ghost t = s@.skip(a as int);
    assert(trim_start(t) == t);
    let mut b: usize = n;
    while b > a && is_white_space_exec(cs[b - 1])
        invariant
            cs@ == s@,
            n == cs@.len(),
            0 <= a <= b <= n,
            t == s@.skip(a as int),
            trim_end(t) == trim_end(s@.subrange(a as int, b as int)),
        decreases b - a,
    {
        assert(s@.subrange(a as int, b as int).drop_last() =~= s@.subrange(a as int, b - 1));
        b = b - 1;
    }
    assert(t =~= s@.subrange(a as int, n as int));
    let ghost u = s@.subrange(a as int, b as int);
    assert(u.len() > 0 ==> !is_white_space(u.last()));
    assert(trim_end(u) == u);
    string_of_chars(vstd::slice::slice_subrange(cs.as_slice(), a, b))
}

/// Reads a single-file dialog's answer.
pub fn parse_single_output(success: bool, stdout: &str) -> (r: Option<String>)
    ensures
        r is None <==> single_output(success, stdout@) is None,
        r matches Some(p) ==> single_output(success, stdout@) == Some(p@),
{
    if !success {
        return None;
    }
    let t = trim_exec(stdout);
    if t.as_str().unicode_len() == 0 {
        None
    } else {
        Some(t)
    }
}

/// The position of the first `\n` at or after `i`, or the end of `s`.
pub open spec fn next_newline(s: Seq<char>, i: int) -> int
    decreases s.len() - i,
{
    if 0 <= i < s.len() && s[i] != '\n' {
        next_newline(s, i + 1)
    } else {
        i
    }
}

/// A line without the `\r` of a `\r\n` ending.
pub open spec fn strip_cr(l: Seq<char>) -> Seq<char> {
    if l.len() > 0 && l.last() == '\r' {
        l.drop_last()
    } else {
        l
    }
}

/// The lines of `s` from `i` on, as `str::lines` gives them: split at
/// `\n`, a `\r` before the `\n` dropped, no empty line after a final `\n`.
pub open spec fn lines_from(s: Seq<char>, i: int) -> Seq<Seq<char>>
    decreases s.len() - i,
{
    if i < 0 || i >= s.len() {
        Seq::empty()
    } else {
        let k = next_newline(s, i);
        if k >= s.len() {
            seq![s.subrange(i, s.len() as int)]
        } else if k < i {
            Seq::empty()
        } else {
            seq![strip_cr(s.subrange(i, k))] + lines_from(s, k + 1)
        }
    }
}

/// The non-empty lines.
pub open spec fn nonempty_lines(s: Seq<char>) -> Seq<Seq<char>> {
    lines_from(s, 0).filter(|l: Seq<char>| l.len() > 0)
}

/// What a multi-file dialog printed: no paths after a failed run (the user
/// cancelled), otherwise the non-empty printed lines.
pub open spec fn multi_output(success: bool, stdout: Seq<char>) -> Seq<Seq<char>> {
    if !success {
        Seq::empty()
    } else {
        nonempty_lines(stdout)
    }
}

proof fn lemma_next_newline(s: Seq<char>, i: int)
    requires
        0 <= i <= s.len(),
    ensures
        i <= next_newline(s, i) <= s.len(),
        forall|j: int| i <= j < next_newline(s, i) ==> s[j] != '\n',
        next_newline(s, i) < s.len() ==> s[next_newline(s, i)] == '\n',
    decreases s.len() - i,
{
    if i < s.len() && s[i] != '\n' {
        lemma_next_newline(s, i + 1);
    }
}

/// The line that starts at `i` and where it ends.
fn line_at(cs: &Vec<char>, i: usize) -> (r: (String, usize))
    requires
        i < cs@.len(),
    ensures
        r.1 == next_newline(cs@, i as int),
        r.1 >= cs@.len() ==> r.0@ == cs@.subrange(i as int, cs@.len() as int),
        r.1 < cs@.len() ==> r.0@ == strip_cr(cs@.subrange(i as int, r.1 as int)),
{
    let n = cs.len();
    proof {
        lemma_next_newline(cs@, i as int);
    }
    let mut k = i;
    while k < n && cs[k] != '\n'
        invariant
            n == cs@.len(),
            i <= k <= n,
            next_newline(cs@, i as int) == next_newline(cs@, k as int),
        decreases n - k,
    {
        k = k + 1;
    }
    let end = if k < n && k > i && cs[k - 1] == '\r' {
        k - 1
    } else {
        k
    };
    let line = string_of_chars(vstd::slice::slice_subrange(cs.as_slice(), i, end));
    proof {
        if k < n {
            let l = cs@.subrange(i as int, k as int);
            if k > i && cs@[k - 1] == '\r' {
                assert(l.drop_last() =~= cs@.subrange(i as int, end as int));
            } else {
                assert(l =~= cs@.subrange(i as int, end as int));
            }
        }
    }
    (line, k)
}

proof fn lemma_filter_cons(l: Seq<char>, rest: Seq<Seq<char>>)
    ensures
        (seq![l] + rest).filter(|x: Seq<char>| x.len() > 0) == (if l.len() > 0 {
            seq![l]
        } else {
            Seq::empty()
        }) + rest.filter(|x: Seq<char>| x.len() > 0),
{
    let p = |x: Seq<char>| x.len() > 0;
    Seq::filter_distributes_over_add(seq![l], rest, p);
    reveal_with_fuel(Seq::filter, 2);
    assert(seq![l].drop_last() =~= Seq::<Seq<char>>::empty());
    if l.len() > 0 {
        assert(seq![l].filter(p) =~= seq![l]);
    } else {
        assert(seq![l].filter(p) =~= Seq::<Seq<char>>::empty());
    }
}

proof fn lemma_lines_from_no_newline(s: Seq<char>, i: int)
    ensures
        forall|m: int, j: int|
            0 <= m < lines_from(s, i).len() && 0 <= j < lines_from(s, i)[m].len() ==> #[trigger] lines_from(
                s,
                i,
            )[m][j] != '\n',
    decreases s.len() - i,
{
    if 0 <= i < s.len() {
        lemma_next_newline(s, i);
        let k = next_newline(s, i);
        if k < s.len() {
            lemma_lines_from_no_newline(s, k + 1);
            let l = strip_cr(s.subrange(i, k));
            let rest = lines_from(s, k + 1);
            assert forall|m: int, j: int|
                0 <= m < lines_from(s, i).len() && 0 <= j < lines_from(s, i)[m].len() implies #[trigger] lines_from(
                s,
                i,
            )[m][j] != '\n' by {
                if m == 0 {
                    assert(lines_from(s, i)[0] == l);
                    assert(l[j] == s.subrange(i, k)[j]);
                } else {
                    assert(lines_from(s, i)[m] == rest[m - 1]);
                }
            }
        } else {
            assert forall|m: int, j: int|
                0 <= m < lines_from(s, i).len() && 0 <= j < lines_from(s, i)[m].len() implies #[trigger] lines_from(
                s,
                i,
            )[m][j] != '\n' by {
                assert(lines_from(s, i)[m] == s.subrange(i, s.len() as int));
                assert(s.subrange(i, s.len() as int)[j] == s[i + j]);
            }
        }
    }
}

/// Every path read from a multi-file dialog's output is a non-empty line:
/// it holds at least one character and no newline.
pub proof fn lemma_multi_output_lines(success: bool, stdout: Seq<char>, m: int)
    requires
        0 <= m < multi_output(success, stdout).len(),
    ensures
        multi_output(success, stdout)[m].len() > 0,
        forall|j: int|
            0 <= j < multi_output(success, stdout)[m].len() ==> #[trigger] multi_output(success, stdout)[m][j]
                != '\n',
{
    let ls = lines_from(stdout, 0);
    let f = ls.filter(|x: Seq<char>| x.len() > 0);
    assert(success);
    assert(multi_output(success, stdout) == f);
    broadcast use vstd::seq_lib::group_filter_ensures;
    lemma_lines_from_no_newline(stdout, 0);
    let l = f[m];
    assert(f.contains(l));
    ls.lemma_filter_contains_rev(|x: Seq<char>| x.len() > 0, l);
    assert(ls.contains(l));
    let q = choose|q: int| 0 <= q < ls.len() && ls[q] == l;
    assert forall|j: int| 0 <= j < l.len() implies #[trigger] l[j] != '\n' by {
        assert(ls[q][j] != '\n');
    }
}

/// Reads a multi-file dialog's answer.
pub fn parse_multi_output(success: bool, stdout: &str) -> (r: Vec<String>)
    ensures
        strings_view(r@) == multi_output(success, stdout@),
{
    let mut out: Vec<String> = Vec::new();
    assert(strings_view(out@) =~= Seq::<Seq<char>>::empty());
    if !success {
        return out;
    }
    let cs = chars_of(stdout);
    let n = cs.len();
    let mut i: usize = 0;
    assert(Seq::<Seq<char>>::empty() + nonempty_lines(stdout@) =~= nonempty_lines(stdout@));
    while i < n
        invariant
            cs@ == stdout@,
            n == cs@.len(),
            0 <= i <= n,
            nonempty_lines(stdout@) == strings_view(out@) + lines_from(stdout@, i as int).filter(
                |x: Seq<char>| x.len() > 0,
            ),
        decreases n - i,
    {
        let (line, k) = line_at(&cs, i);
        proof {
            lemma_next_newline(stdout@, i as int);
        }
        let ghost l = line@;
        let ghost before = strings_view(out@);
        let ghost rest = if k >= n {
            Seq::<Seq<char>>::empty()
        } else {
            lines_from(stdout@, k + 1)
        };
        assert(lines_from(stdout@, i as int) == seq![l] + rest) by {
            if k >= n {
                assert(seq![l] + rest =~= seq![l]);
            }
        }
        proof {
            lemma_filter_cons(l, rest);
        }
        if line.as_str().unicode_len() > 0 {
            out.push(line);
            assert(strings_view(out@) =~= before + seq![l]);
        } else {
            assert(strings_view(out@) =~= before + Seq::<Seq<char>>::empty());
        }
        if k >= n {
            i = n;
        } else {
            i = k + 1;
        }
        assert(rest == lines_from(stdout@, i as int));
        assert(nonempty_lines(stdout@) =~= strings_view(out@) + lines_from(stdout@, i as int).filter(
            |x: Seq<char>| x.len() > 0,
        ));
    }
    assert(lines_from(stdout@, n as int) =~= Seq::<Seq<char>>::empty());
    proof {
        reveal(Seq::filter);
    }
    assert(strings_view(out@) + lines_from(stdout@, n as int).filter(|x: Seq<char>| x.len() > 0)
        =~= strings_view(out@));
    out
}

} // verus!
