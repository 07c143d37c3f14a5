//! Character-level string helpers used by the verified code.

use vstd::prelude::*;
use vstd::utf8::{valid_utf8, decode_utf8};

verus! {

/// An owned copy of a string slice.
pub fn string_from(s: &str) -> (r: String)
    ensures
        r@ == s@,
{
    s.to_owned()
}

/// Whether two string slices hold the same characters.
pub fn eq_str(a: &str, b: &str) -> (r: bool)
    ensures
        r == (a@ == b@),
{
    let n = a.unicode_len();
    if n != b.unicode_len() {
        return false;
    }
    let mut i: usize = 0;
    while i < n
        invariant
            n == a@.len(),
            n == b@.len(),
            0 <= i <= n,
            forall|j: int| 0 <= j < i ==> a@[j] == b@[j],
        decreases n - i,
    {
        if a.get_char(i) != b.get_char(i) {
            return false;
        }
        i = i + 1;
    }
    assert(a@ =~= b@);
    true
}

/// The characters of a string slice, in order.
pub fn chars_of(s: &str) -> (r: Vec<char>)
    ensures
        r@ == s@,
{
    broadcast use vstd::string::group_string_axioms;
    let mut v: Vec<char> = Vec::new();
    for c in it: s.chars()
        invariant
            it.seq() == s@,
            v@ == it.seq().take(it.index() as int),
    {
        v.push(c);
    }
    assert(v@ =~= s@);
    v
}

/// Collects characters into a `String` (`String::from_iter`).
///
/// Claimed: the string holds exactly the given characters, in order.
#[verifier::external_body]
pub fn string_of_chars(cs: &[char]) -> (r: String)
    ensures
        r@ == cs@,
{
    cs.iter().collect()
}

/// Appends one character (`String::push`).
///
/// Claimed: the string afterwards is the old one followed by `c`.
#[verifier::external_body]
pub fn push_char(s: &mut String, c: char)
    ensures
        final(s)@ == old(s)@.push(c),
{
    s.push(c)
}

/// The part of `s` after its last `c` (all of `s` when it holds no `c`),
/// as `s.rsplit(c).next()` gives it.
pub open spec fn last_segment(s: Seq<char>, c: char) -> Seq<char>
    decreases s.len(),
{
    if s.len() == 0 {
        s
    } else if s.last() == c {
        Seq::empty()
    } else {
        last_segment(s.drop_last(), c).push(s.last())
    }
}

proof fn lemma_last_segment(s: Seq<char>, c: char, k: int)
    requires
        0 <= k <= s.len(),
        forall|j: int| k <= j < s.len() ==> s[j] != c,
        k > 0 ==> s[k - 1] == c,
    ensures
        last_segment(s, c) == s.subrange(k, s.len() as int),
    decreases s.len(),
{
    if s.len() == k {
        if k > 0 {
            assert(s.last() == c);
        }
        assert(s.subrange(k, s.len() as int) =~= Seq::<char>::empty());
    } else {
        lemma_last_segment(s.drop_last(), c, k);
        assert(s.drop_last().subrange(k, s.len() - 1).push(s.last()) =~= s.subrange(k, s.len() as int));
    }
}

/// The part of `s` after its last `c` (see [`last_segment`]).
pub fn last_segment_of(s: &str, c: char) -> (r: String)
    ensures
        r@ == last_segment(s@, c),
{
    let cs = chars_of(s);
    let mut k = cs.len();
    while k > 0 && cs[k - 1] != c
        invariant
            cs@ == s@,
            0 <= k <= cs@.len(),
            forall|j: int| k <= j < cs@.len() ==> cs@[j] != c,
        decreases k,
    {
        k = k - 1;
    }
    proof {
        lemma_last_segment(s@, c, k as int);
    }
    string_of_chars(vstd::slice::slice_subrange(cs.as_slice(), k, cs.len()))
}

/// The `Display` text of the error that `String::from_utf8` gives for bytes
/// that are not UTF-8.
pub uninterp spec fn utf8_error_text(bytes: Seq<u8>) -> Seq<char>;

/// Reads bytes as UTF-8 text (`String::from_utf8`), an error as its
/// `Display` text.
///
/// Claimed, as std documents it: `Ok` exactly when the bytes are valid
/// UTF-8, holding the characters they encode; the error's text is named,
/// not stated.
#[verifier::external_body]
pub fn utf8_string(bytes: Vec<u8>) -> (r: Result<String, String>)
    ensures
        r is Ok <==> valid_utf8(bytes@),
        r matches Ok(s) ==> s@ == decode_utf8(bytes@),
        r matches Err(m) ==> m@ == utf8_error_text(bytes@),
{
    String::from_utf8(bytes).map_err(|e| e.to_string())
}

/// An owned copy of an optional string.
pub fn clone_opt(o: &Option<String>) -> (r: Option<String>)
    ensures
        r == *o,
{
    match o {
        Some(s) => Some(s.clone()),
        None => None,
    }
}

} // verus!
