//! The rules that turn a file name into its normalized form.

use vstd::prelude::*;
use crate::config::Limit;
use crate::text::{chars_of, lowercase, lowercased, string_of};

verus! {

/// The number of characters that a truncated name keeps. It does not depend
/// on the configured limit, which only decides whether a stem is truncated.
pub const TRUNCATED_LENGTH: usize = 30;

/// The characters that are replaced by an underscore.
pub open spec fn is_separator(c: char) -> bool {
    c == ' ' || c == '-'
}

/// The punctuation that is removed.
pub open spec fn is_stripped(c: char) -> bool {
    c == '!' || c == ',' || c == '(' || c == ')' || c == '\'' || c == '"' || c == '*'
}

/// What one character becomes: an underscore for a separator, nothing for
/// stripped punctuation, itself otherwise.
pub open spec fn replacement(c: char) -> Option<char> {
    if is_separator(c) {
        Some('_')
    } else if is_stripped(c) {
        None
    } else {
        Some(c)
    }
}

/// A name after the substitution pass over each of its characters.
pub open spec fn substituted(s: Seq<char>) -> Seq<char> {
    s.filter_map(|c: char| replacement(c))
}

/// The part of a name before its first `.`; the whole name if it has none.
pub open spec fn first_segment(s: Seq<char>) -> Seq<char> {
    match s.index_of_first('.') {
        Some(i) => s.take(i),
        None => s,
    }
}

/// The name `..`, which stands for a parent directory and has no extension.
pub open spec fn is_parent_marker(name: Seq<char>) -> bool {
    name.len() == 2 && name[0] == '.' && name[1] == '.'
}

/// The extension of a file name: what follows its last `.`, unless the name
/// has no `.`, has its only `.` in front, or is `..`. For a bare file name
/// this is the extension that `std::path::Path` gives.
pub open spec fn extension(name: Seq<char>) -> Option<Seq<char>> {
    match name.index_of_last('.') {
        Some(i) => if i > 0 && !is_parent_marker(name) {
            Some(name.skip(i + 1))
        } else {
            None
        },
        None => None,
    }
}

/// A name cut to its first [`TRUNCATED_LENGTH`] characters.
pub open spec fn truncated(s: Seq<char>) -> Seq<char> {
    if s.len() > TRUNCATED_LENGTH {
        s.take(TRUNCATED_LENGTH as int)
    } else {
        s
    }
}

/// Whether a configured limit asks for a stem of `len` characters to be cut.
pub open spec fn exceeds(limit: Option<Limit>, len: nat) -> bool {
    limit matches Some(l) && len > l@
}

/// The stem of a name that has an extension, from its lowercase form: the
/// first segment of the substituted name, truncated where the limit asks.
pub open spec fn stem(lowered: Seq<char>, limit: Option<Limit>) -> Seq<char> {
    let base = first_segment(substituted(lowered));
    if exceeds(limit, base.len()) {
        truncated(base)
    } else {
        base
    }
}

/// The normalized name, from the lowercase forms of the name and of its
/// extension.
pub open spec fn composed(
    lowered: Seq<char>,
    lowered_extension: Option<Seq<char>>,
    limit: Option<Limit>,
) -> Seq<char> {
    match lowered_extension {
        Some(ext) => stem(lowered, limit) + seq!['.'] + ext,
        None => truncated(substituted(lowered)),
    }
}

/// The lowercase form of a name's extension, if it has one.
pub open spec fn lowered_extension(name: Seq<char>) -> Option<Seq<char>> {
    match extension(name) {
        Some(ext) => Some(lowercased(ext)),
        None => None,
    }
}

/// The normalized form of a file name.
pub open spec fn normalized(name: Seq<char>, limit: Option<Limit>) -> Seq<char> {
    composed(lowercased(name), lowered_extension(name), limit)
}

fn replace(c: char) -> (r: Option<char>)
    ensures
        r == replacement(c),
{
    if c == ' ' || c == '-' {
        Some('_')
    } else if c == '!' || c == ',' || c == '(' || c == ')' || c == '\'' || c == '"' || c == '*' {
        None
    } else {
        Some(c)
    }
}

fn substitute(chars: &Vec<char>) -> (out: Vec<char>)
    ensures
        out@ == substituted(chars@),
{
    let mut out: Vec<char> = Vec::new();
    let mut i: usize = 0;
    while i < chars.len()
        invariant
            i <= chars.len(),
            out@ == substituted(chars@.take(i as int)),
        decreases chars.len() - i,
    {
        proof {
            assert(chars@.take(i + 1).drop_last() == chars@.take(i as int));
        }
        match replace(chars[i]) {
            Some(c) => out.push(c),
            None => {},
        }
        i += 1;
    }
    assert(chars@.take(i as int) == chars@);
    out
}

fn first_dot(chars: &Vec<char>) -> (at: Option<usize>)
    ensures
        match at {
            Some(i) => i < chars.len() && chars@.index_of_first('.') == Some(i as int),
            None => chars@.index_of_first('.') is None,
        },
{
    let mut i: usize = 0;
    while i < chars.len()
        invariant
            i <= chars.len(),
            forall|j: int| 0 <= j < i ==> chars@[j] != '.',
        decreases chars.len() - i,
    {
        if chars[i] == '.' {
            proof {
                chars@.index_of_first_ensures('.');
                assert(chars@.contains('.'));
            }
            return Some(i);
        }
        i += 1;
    }
    proof {
        chars@.index_of_first_ensures('.');
    }
    None
}

fn last_dot(chars: &Vec<char>) -> (at: Option<usize>)
    ensures
        match at {
            Some(i) => i < chars.len() && chars@.index_of_last('.') == Some(i as int),
            None => chars@.index_of_last('.') is None,
        },
{
    let mut i: usize = chars.len();
    while i > 0
        invariant
            i <= chars.len(),
            forall|j: int| i <= j < chars.len() ==> chars@[j] != '.',
        decreases i,
    {
        i -= 1;
        if chars[i] == '.' {
            proof {
                chars@.index_of_last_ensures('.');
                assert(chars@.contains('.'));
            }
            return Some(i);
        }
    }
    proof {
        chars@.index_of_last_ensures('.');
    }
    None
}

/// The extension of a file name, see [`extension`].
pub fn extension_of<'a>(name: &'a str) -> (ext: Option<&'a str>)
    ensures
        match ext {
            Some(e) => extension(name@) == Some(e@),
            None => extension(name@) is None,
        },
{
    let chars = chars_of(name);
    let len = chars.len();
    match last_dot(&chars) {
        Some(i) => {
            if i > 0 && !(len == 2 && chars[0] == '.' && chars[1] == '.') {
                Some(name.substring_char(i + 1, len))
            } else {
                None
            }
        },
        None => None,
    }
}

fn append(out: &mut Vec<char>, tail: &Vec<char>)
    ensures
        final(out)@ == old(out)@ + tail@,
{
    let mut i: usize = 0;
    while i < tail.len()
        invariant
            i <= tail.len(),
            out@ == old(out)@ + tail@.take(i as int),
        decreases tail.len() - i,
    {
        out.push(tail[i]);
        i += 1;
    }
}

fn compose_chars(lowered: &Vec<char>, lowered_extension: Option<&Vec<char>>, limit: Option<Limit>) -> (out:
    Vec<char>)
    ensures
        out@ == composed(
            lowered@,
            match lowered_extension {
                Some(ext) => Some(ext@),
                None => None,
            },
            limit,
        ),
{
    let mut out = substitute(lowered);
    match lowered_extension {
        Some(ext) => {
            match first_dot(&out) {
                Some(i) => out.truncate(i),
                None => {},
            }
            let cut = match limit {
                Some(l) => out.len() > l.value() as usize,
                None => false,
            };
            if cut {
                out.truncate(TRUNCATED_LENGTH);
            }
            out.push('.');
            append(&mut out, ext);
        },
        None => {
            out.truncate(TRUNCATED_LENGTH);
        },
    }
    out
}

/// Puts a normalized name together from the lowercase form of the name and
/// the lowercase form of its extension, if it has one.
pub fn compose(lowered: &str, lowered_extension: Option<&str>, limit: Option<Limit>) -> (name: String)
    ensures
        name@ == composed(
            lowered@,
            match lowered_extension {
                Some(ext) => Some(ext@),
                None => None,
            },
            limit,
        ),
{
    let chars = chars_of(lowered);
    let out = match lowered_extension {
        Some(ext) => {
            let ext_chars = chars_of(ext);
            compose_chars(&chars, Some(&ext_chars), limit)
        },
        None => compose_chars(&chars, None, limit),
    };
    string_of(out)
}

/// Normalizes a file name: lowercases it, replaces separators by
/// underscores, removes punctuation, keeps the first segment where the name
/// has an extension and puts the lowercase extension back, and truncates.
pub fn transform(name: &str, limit: Option<Limit>) -> (new_name: String)
    ensures
        new_name@ == normalized(name@, limit),
{
    let lowered = lowercase(name);
    let out = match extension_of(name) {
        Some(ext) => {
            let lowered_ext = lowercase(ext);
            compose_chars(&lowered, Some(&lowered_ext), limit)
        },
        None => compose_chars(&lowered, None, limit),
    };
    string_of(out)
}

} // verus!
