//! Texts: comparing, splitting and cutting them character by character,
//! and what is asked of the `regex` crate and of the standard library.

use vstd::prelude::*;
use vstd::string::*;
use regex::Regex;

verus! {

/// Whether two string slices hold the same characters.
pub fn str_eq(a: &str, b: &str) -> (same: bool)
    ensures
        same == (a@ == b@),
{
    let n: usize = a.unicode_len();
    if b.unicode_len() != n {
        return false;
    }
    let mut i: usize = 0;
    while i < n
        invariant
            n == a@.len(),
            n == b@.len(),
            i <= n,
            forall|j: int| 0 <= j < i ==> a@[j] == b@[j],
        decreases n - i,
    {
        if a.get_char(i) != b.get_char(i) {
            return false;
        }
        i += 1;
    }
    assert(a@ =~= b@);
    true
}

/// Whether `pattern` is not empty and stands in `text` at position `at`.
pub fn starts_with_at(text: &Vec<char>, at: usize, pattern: &str) -> (found: bool)
    requires
        at <= text.len(),
    ensures
        found == (pattern@.len() > 0 && pattern@.is_prefix_of(text@.skip(at as int))),
{
    let n: usize = pattern.unicode_len();
    if n == 0 || n > text.len() - at {
        return false;
    }
    let mut i: usize = 0;
    while i < n
        invariant
            n == pattern@.len(),
            at + n <= text.len(),
            i <= n,
            forall|j: int| 0 <= j < i ==> text@[at + j] == pattern@[j],
        decreases n - i,
    {
        if text[at + i] != pattern.get_char(i) {
            assert(text@.skip(at as int)[i as int] != pattern@[i as int]);
            return false;
        }
        i += 1;
    }
    assert(pattern@ =~= text@.skip(at as int).subrange(0, n as int));
    true
}

/// The characters of a string slice, in order.
pub fn chars_of(s: &str) -> (v: Vec<char>)
    ensures
        v@ == s@,
{
    let mut v: Vec<char> = Vec::new();
    for c in it: s.chars()
        invariant
            v@ == it.seq().take(it.index() as int),
            it.seq() == s@,
    {
        v.push(c);
    }
    v
}

/// `String::push` appends one character to the end of the string.
pub assume_specification[ String::push ](s: &mut String, c: char)
    ensures
        final(s)@ == old(s)@.push(c),
;

/// The error that the `regex` crate gives for a pattern that it does not
/// compile.
#[verifier::external_type_specification]
#[verifier::external_body]
pub struct ExRegexError(regex::Error);

/// What the `regex` crate finds when it looks for `pattern` in `text`: `None`
/// when it does not compile the pattern, else whether the pattern matches
/// anywhere in the text.
pub uninterp spec fn regex_is_match(pattern: Seq<char>, text: Seq<char>) -> Option<bool>;

/// What the `regex` crate captures when it looks for `pattern` in `text`:
/// `None` when it does not compile the pattern, else the part of the text
/// that the first capture group of the leftmost match holds, if there is a
/// match and the group took part in it.
pub uninterp spec fn regex_first_group(pattern: Seq<char>, text: Seq<char>) -> Option<
    Option<Seq<char>>,
>;

/// `str::trim` of a text: the text without leading and trailing white space.
pub uninterp spec fn trimmed(text: Seq<char>) -> Seq<char>;

/// `str::to_lowercase` of a text: the text in lower case.
pub uninterp spec fn lowercased(text: Seq<char>) -> Seq<char>;

/// `Regex::new` and `Regex::is_match`: compiles `pattern` and says whether
/// it matches anywhere in `text`. The answer depends on the two texts alone;
/// the error is that of a pattern that does not compile.
#[verifier::external_body]
pub(crate) fn is_match(pattern: &str, text: &str) -> (found: Result<bool, regex::Error>)
    ensures
        regex_is_match(pattern@, text@) == match found {
            Ok(yes) => Some(yes),
            Err(_) => None,
        },
{
    let re = Regex::new(pattern)?;
    Ok(re.is_match(text))
}

/// `Regex::new`, `Regex::captures`, `Captures::get` and `Match::as_str`:
/// compiles `pattern`, looks for its leftmost match in `text`, and hands out
/// what the first capture group holds. The answer depends on the two texts
/// alone; the error is that of a pattern that does not compile.
#[verifier::external_body]
pub(crate) fn first_group(pattern: &str, text: &str) -> (found: Result<
    Option<String>,
    regex::Error,
>)
    ensures
        regex_first_group(pattern@, text@) == match found {
            Ok(Some(group)) => Some(Some(group@)),
            Ok(None) => Some(None),
            Err(_) => None,
        },
{
    let re = Regex::new(pattern)?;
    match re.captures(text) {
        Some(caps) => match caps.get(1) {
            Some(group) => Ok(Some(group.as_str().to_string())),
            None => Ok(None),
        },
        None => Ok(None),
    }
}

/// `str::trim`: the text without leading and trailing white space.
#[verifier::external_body]
pub(crate) fn trim(text: &str) -> (rest: &str)
    ensures
        rest@ == trimmed(text@),
{
    text.trim()
}

/// `str::to_lowercase`: the text in lower case.
#[verifier::external_body]
pub(crate) fn to_lowercase(text: &str) -> (lower: String)
    ensures
        lower@ == lowercased(text@),
{
    text.to_lowercase()
}

/// The pieces of a text between separators, read from left to right: each
/// separator ends a piece and begins the next. A text without separators is
/// one piece, and so is the empty text.
pub open spec fn pieces(text: Seq<char>, separator: char) -> Seq<Seq<char>>
    decreases text.len(),
{
    if text.len() == 0 {
        seq![Seq::empty()]
    } else {
        let before = pieces(text.drop_last(), separator);
        if text.last() == separator {
            before.push(Seq::empty())
        } else {
            before.drop_last().push(before.last().push(text.last()))
        }
    }
}

/// A text always has a piece.
pub proof fn lemma_pieces_not_empty(text: Seq<char>, separator: char)
    ensures
        pieces(text, separator).len() >= 1,
    decreases text.len(),
{
    if text.len() > 0 {
        lemma_pieces_not_empty(text.drop_last(), separator);
    }
}

/// The texts that strings hold.
pub open spec fn texts_of(strings: Seq<String>) -> Seq<Seq<char>> {
    Seq::new(strings.len(), |i: int| strings[i]@)
}

/// Splits a text at each separator.
pub fn split(text: &Vec<char>, separator: char) -> (parts: Vec<String>)
    ensures
        texts_of(parts@) == pieces(text@, separator),
{
    let mut parts: Vec<String> = Vec::new();
    let mut current = String::new();
    let mut k: usize = 0;
    assert(text@.take(0) =~= Seq::<char>::empty());
    assert(texts_of(parts@).push(current@) =~= pieces(text@.take(0), separator));
    while k < text.len()
        invariant
            k <= text.len(),
            texts_of(parts@).push(current@) == pieces(text@.take(k as int), separator),
        decreases text.len() - k,
    {
        let ghost read = text@.take(k as int);
        let ghost next = text@.take(k + 1);
        let ghost before = texts_of(parts@).push(current@);
        assert(next.drop_last() =~= read);
        assert(next.last() == text@[k as int]);
        if text[k] == separator {
            parts.push(current);
            current = String::new();
            assert(texts_of(parts@).push(current@) =~= before.push(Seq::empty()));
        } else {
            current.push(text[k]);
            assert(texts_of(parts@).push(current@) =~= before.drop_last().push(
                before.last().push(text@[k as int]),
            ));
        }
        k += 1;
    }
    assert(text@.take(k as int) =~= text@);
    parts.push(current);
    assert(texts_of(parts@) =~= pieces(text@, separator));
    parts
}

/// Whether two spaces stand at position `i` of a text.
pub open spec fn gap_at(text: Seq<char>, i: int) -> bool {
    0 <= i && i + 1 < text.len() && text[i] == ' ' && text[i + 1] == ' '
}

/// Where the first two spaces in a row stand, if there are any.
pub fn find_gap(text: &Vec<char>) -> (at: Option<usize>)
    ensures
        match at {
            Some(i) => gap_at(text@, i as int) && forall|j: int| 0 <= j < i ==> !gap_at(text@, j),
            None => forall|j: int| !gap_at(text@, j),
        },
{
    let mut k: usize = 1;
    while k < text.len()
        invariant
            1 <= k,
            forall|j: int| 0 <= j < k - 1 ==> !gap_at(text@, j),
        decreases text.len() - k,
    {
        if text[k - 1] == ' ' && text[k] == ' ' {
            return Some(k - 1);
        }
        k += 1;
    }
    None
}

/// The characters of a text from position `from` up to, and without,
/// position `to`, as a string.
pub fn string_of(text: &Vec<char>, from: usize, to: usize) -> (part: String)
    requires
        from <= to <= text.len(),
    ensures
        part@ == text@.subrange(from as int, to as int),
{
    let mut part = String::new();
    let mut k: usize = from;
    while k < to
        invariant
            from <= k <= to,
            to <= text.len(),
            part@ == text@.subrange(from as int, k as int),
        decreases to - k,
    {
        part.push(text[k]);
        k += 1;
        assert(part@ =~= text@.subrange(from as int, k as int));
    }
    part
}

} // verus!
