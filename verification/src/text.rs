//! Strings as sequences of characters, and the lowercasing of names.

use vstd::prelude::*;
use vstd::utf8::is_ascii_chars;

verus! {

/// The lowercase form of an ASCII letter; every other character is itself.
pub open spec fn lower_char(c: char) -> char {
    if 'A' <= c <= 'Z' {
        ((c as u8) + 32) as char
    } else {
        c
    }
}

/// An ASCII string with each of its capital letters replaced by the small one.
pub open spec fn ascii_lowercase(s: Seq<char>) -> Seq<char> {
    s.map_values(|c: char| lower_char(c))
}

/// What `str::to_lowercase` returns for a string: its lowercase equivalent
/// under the Unicode case mappings of the standard library.
pub uninterp spec fn unicode_lowercase(s: Seq<char>) -> Seq<char>;

/// `str::to_lowercase` of the standard library. The contract says nothing of
/// the characters that come back; it only gives the result its name.
pub assume_specification[ str::to_lowercase ](s: &str) -> (lowered: String)
    ensures
        lowered@ == unicode_lowercase(s@),
;

/// The lowercase form of a name. A name of ASCII characters alone is lowered
/// letter by letter; any other name is lowered by the standard library.
pub open spec fn lowercased(s: Seq<char>) -> Seq<char> {
    if is_ascii_chars(s) {
        ascii_lowercase(s)
    } else {
        unicode_lowercase(s)
    }
}

/// The characters of a string, in order.
pub(crate) fn chars_of(s: &str) -> (chars: Vec<char>)
    ensures
        chars@ == s@,
{
    let mut chars: Vec<char> = Vec::new();
    for c in it: s.chars()
        invariant
            it.seq() == s@,
            chars@ == s@.take(it.index()),
    {
        chars.push(c);
    }
    chars
}

/// `String::from_iter` of the standard library, on a vector of characters:
/// the string holds those characters in the same order.
#[verifier::external_body]
pub(crate) fn string_of(chars: Vec<char>) -> (s: String)
    ensures
        s@ == chars@,
{
    String::from_iter(chars)
}

fn lower(c: char) -> (l: char)
    ensures
        l == lower_char(c),
{
    if c >= 'A' && c <= 'Z' {
        ((c as u8) + 32) as char
    } else {
        c
    }
}

/// Lowercases a name, see [`lowercased`].
pub(crate) fn lowercase(s: &str) -> (lowered: Vec<char>)
    ensures
        lowered@ == lowercased(s@),
{
    if s.is_ascii() {
        let chars = chars_of(s);
        let mut lowered: Vec<char> = Vec::new();
        let mut i: usize = 0;
        while i < chars.len()
            invariant
                i <= chars.len(),
                lowered@ == ascii_lowercase(chars@.take(i as int)),
            decreases chars.len() - i,
        {
            lowered.push(lower(chars[i]));
            i += 1;
        }
        lowered
    } else {
        let lowered = s.to_lowercase();
        chars_of(lowered.as_str())
    }
}

} // verus!
