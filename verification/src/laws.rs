//! What holds of every normalized name.

use vstd::prelude::*;
use vstd::utf8::is_ascii_chars;
use crate::config::Limit;
use crate::rules::{
    exceeds, extension, first_segment, is_parent_marker, is_separator, is_stripped,
    lowered_extension, normalized, replacement, stem, substituted, truncated, TRUNCATED_LENGTH,
};
use crate::process::{
    conclusion, counted, decision, dry_run_line, exists_message, proposal, OutcomeView,
    ReportView, StepView,
};
use crate::text::{ascii_lowercase, lowercased};

verus! {

/// A character that the substitution pass leaves as it is.
pub open spec fn is_kept(c: char) -> bool {
    !is_separator(c) && !is_stripped(c)
}

/// A name without separators and without stripped punctuation.
pub open spec fn is_clean(s: Seq<char>) -> bool {
    forall|i: int| 0 <= i < s.len() ==> is_kept(#[trigger] s[i])
}

/// A capital ASCII letter.
pub open spec fn is_capital(c: char) -> bool {
    'A' <= c <= 'Z'
}

/// A name without capital ASCII letters.
pub open spec fn has_no_capital(s: Seq<char>) -> bool {
    forall|i: int| 0 <= i < s.len() ==> !is_capital(#[trigger] s[i])
}

/// A name without a `.`.
pub open spec fn has_no_dot(s: Seq<char>) -> bool {
    forall|i: int| 0 <= i < s.len() ==> #[trigger] s[i] != '.'
}

proof fn lemma_substituted_push(s: Seq<char>, c: char)
    ensures
        substituted(s.push(c)) == match replacement(c) {
            Some(r) => substituted(s).push(r),
            None => substituted(s),
        },
{
    assert(s.push(c).drop_last() == s);
}

proof fn lemma_substituted_concat(a: Seq<char>, b: Seq<char>)
    ensures
        substituted(a + b) == substituted(a) + substituted(b),
    decreases b.len(),
{
    if b.len() == 0 {
        assert(a + b == a);
        assert(substituted(b) == Seq::<char>::empty());
    } else {
        let front = b.drop_last();
        lemma_substituted_concat(a, front);
        assert(a + b == (a + front).push(b.last()));
        assert(b == front.push(b.last()));
        lemma_substituted_push(a + front, b.last());
        lemma_substituted_push(front, b.last());
    }
}

/// Each character of a substituted name is an underscore or a character
/// of the name that the pass keeps.
proof fn lemma_substituted_chars(s: Seq<char>)
    ensures
        is_clean(substituted(s)),
        substituted(s).len() <= s.len(),
        forall|i: int|
            0 <= i < substituted(s).len() ==> #[trigger] substituted(s)[i] == '_' || s.contains(
                substituted(s)[i],
            ),
    decreases s.len(),
{
    if s.len() > 0 {
        let front = s.drop_last();
        lemma_substituted_chars(front);
        assert(s == front.push(s.last()));
        lemma_substituted_push(front, s.last());
        assert forall|i: int| 0 <= i < substituted(s).len() implies #[trigger] substituted(s)[i]
            == '_' || s.contains(substituted(s)[i]) by {
            if i < substituted(front).len() {
                let c = substituted(front)[i];
                if c != '_' {
                    let j = choose|j: int| 0 <= j < front.len() && front[j] == c;
                    assert(s[j] == c);
                }
            } else {
                assert(s[s.len() - 1] == s.last());
            }
        }
    }
}

proof fn lemma_substituted_of_clean(s: Seq<char>)
    requires
        is_clean(s),
    ensures
        substituted(s) == s,
    decreases s.len(),
{
    if s.len() > 0 {
        let front = s.drop_last();
        lemma_substituted_of_clean(front);
        assert(s == front.push(s.last()));
        lemma_substituted_push(front, s.last());
    }
}

proof fn lemma_no_dot(s: Seq<char>)
    requires
        has_no_dot(s),
    ensures
        s.index_of_first('.') is None,
        s.index_of_last('.') is None,
        first_segment(s) == s,
{
    s.index_of_first_ensures('.');
    s.index_of_last_ensures('.');
}

proof fn lemma_first_dot_at(s: Seq<char>, at: int)
    requires
        0 <= at < s.len(),
        s[at] == '.',
        has_no_dot(s.take(at)),
    ensures
        s.index_of_first('.') == Some(at),
        first_segment(s) == s.take(at),
{
    s.index_of_first_ensures('.');
    assert(s.contains('.'));
    let found = s.index_of_first('.').unwrap();
    if found < at {
        assert(s.take(at)[found] == '.');
    }
}

proof fn lemma_last_dot_at(s: Seq<char>, at: int)
    requires
        0 <= at < s.len(),
        s[at] == '.',
        has_no_dot(s.skip(at + 1)),
    ensures
        s.index_of_last('.') == Some(at),
{
    s.index_of_last_ensures('.');
    assert(s.contains('.'));
    let found = s.index_of_last('.').unwrap();
    if found > at {
        assert(s.skip(at + 1)[found - at - 1] == '.');
    }
}

/// The first segment of a name is a prefix of it and holds no `.`.
proof fn lemma_first_segment(s: Seq<char>)
    ensures
        has_no_dot(first_segment(s)),
        first_segment(s).len() <= s.len(),
        first_segment(s) == s.take(first_segment(s).len() as int),
        first_segment(s).len() < s.len() ==> s[first_segment(s).len() as int] == '.',
{
    s.index_of_first_ensures('.');
    match s.index_of_first('.') {
        Some(i) => {},
        None => {
            assert forall|i: int| 0 <= i < s.len() implies #[trigger] s[i] != '.' by {
                if s[i] == '.' {
                    assert(s.contains('.'));
                }
            }
            assert(s.take(s.len() as int) == s);
        },
    }
}

/// The extension of a name holds no `.`, and stands behind a `.` that is
/// not the name's first character.
proof fn lemma_extension(name: Seq<char>)
    ensures
        match extension(name) {
            Some(ext) => {
                &&& has_no_dot(ext)
                &&& ext.len() + 2 <= name.len()
                &&& name[name.len() - ext.len() - 1] == '.'
                &&& ext == name.skip(name.len() - ext.len())
                &&& !is_parent_marker(name)
            },
            None => has_no_dot(name) || is_parent_marker(name) || (name[0] == '.' && has_no_dot(
                name.skip(1),
            )),
        },
{
    name.index_of_last_ensures('.');
    match name.index_of_last('.') {
        Some(i) => {
            assert forall|j: int| 0 <= j < name.skip(i + 1).len() implies #[trigger] name.skip(
                i + 1,
            )[j] != '.' by {
                assert(name[i + 1 + j] != '.');
            }
        },
        None => {
            assert forall|i: int| 0 <= i < name.len() implies #[trigger] name[i] != '.' by {
                if name[i] == '.' {
                    assert(name.contains('.'));
                }
            }
        },
    }
}

/// A name of small ASCII letters and other ASCII characters is its own
/// lowercase form.
proof fn lemma_lowercased_of_lowered(s: Seq<char>)
    requires
        is_ascii_chars(s),
        has_no_capital(s),
    ensures
        lowercased(s) == s,
{
    assert(ascii_lowercase(s) =~= s);
}

/// The lowercase form of an ASCII name: as long as the name, ASCII, without
/// capitals, with a `.` where the name has one and with the characters that
/// the substitution pass treats alike where the name has them.
proof fn lemma_ascii_lowercase(s: Seq<char>)
    requires
        is_ascii_chars(s),
    ensures
        lowercased(s) == ascii_lowercase(s),
        is_ascii_chars(ascii_lowercase(s)),
        has_no_capital(ascii_lowercase(s)),
        ascii_lowercase(s).len() == s.len(),
        forall|i: int|
            0 <= i < s.len() ==> (#[trigger] ascii_lowercase(s)[i] == '.') == (s[i] == '.'),
        forall|i: int|
            0 <= i < s.len() ==> is_kept(#[trigger] ascii_lowercase(s)[i]) == is_kept(s[i]),
{
}

/// A name that is already lowered: ASCII, without capitals.
spec fn is_lowered(s: Seq<char>) -> bool {
    is_ascii_chars(s) && has_no_capital(s)
}

/// The substituted form of a lowered name is lowered and clean.
proof fn lemma_substituted_of_lowered(s: Seq<char>)
    requires
        is_lowered(s),
    ensures
        is_lowered(substituted(s)),
        is_clean(substituted(s)),
{
    lemma_substituted_chars(s);
    let out = substituted(s);
    assert forall|i: int| 0 <= i < out.len() implies '\0' <= #[trigger] out[i] <= '\u{7f}'
        && !is_capital(out[i]) by {
        if out[i] != '_' {
            let j = choose|j: int| 0 <= j < s.len() && s[j] == out[i];
            assert(!is_capital(s[j]));
        }
    }
}

/// The stem taken from a lowered name is lowered and clean, holds no `.`,
/// and is not cut again by the limit that shaped it.
proof fn lemma_stem(lowered: Seq<char>, limit: Option<Limit>)
    requires
        is_lowered(lowered),
    ensures
        is_lowered(stem(lowered, limit)),
        is_clean(stem(lowered, limit)),
        has_no_dot(stem(lowered, limit)),
        exceeds(limit, stem(lowered, limit).len()) ==> truncated(stem(lowered, limit)) == stem(
            lowered,
            limit,
        ),
{
    let whole = substituted(lowered);
    lemma_substituted_of_lowered(lowered);
    lemma_first_segment(whole);
    let base = first_segment(whole);
    let st = stem(lowered, limit);
    assert(st == whole.take(st.len() as int));
    assert forall|i: int| 0 <= i < st.len() implies '\0' <= #[trigger] st[i] <= '\u{7f}'
        && !is_capital(st[i]) && is_kept(st[i]) && st[i] != '.' by {
        assert(st[i] == whole[i]);
        assert(st[i] == base[i]);
    }
}

/// A lowered, clean name of at most `TRUNCATED_LENGTH` characters that has
/// no extension is its own normalized form.
proof fn lemma_settled_without_extension(r: Seq<char>, limit: Option<Limit>)
    requires
        is_lowered(r),
        is_clean(r),
        r.len() <= TRUNCATED_LENGTH,
        extension(r) is None,
    ensures
        normalized(r, limit) == r,
{
    lemma_lowercased_of_lowered(r);
    lemma_substituted_of_clean(r);
}

/// A stem, a `.` and an extension, each of them lowered, the stem not empty,
/// clean and without `.`, the extension without `.`: the normalized form of
/// the whole is the whole.
proof fn lemma_settled_with_extension(st: Seq<char>, ext: Seq<char>, limit: Option<Limit>)
    requires
        st.len() > 0,
        is_lowered(st),
        is_clean(st),
        has_no_dot(st),
        exceeds(limit, st.len()) ==> truncated(st) == st,
        is_lowered(ext),
        has_no_dot(ext),
    ensures
        normalized(st + seq!['.'] + ext, limit) == st + seq!['.'] + ext,
{
    let dot = seq!['.'];
    let r = st + dot + ext;
    let at = st.len() as int;
    assert(is_lowered(r)) by {
        assert forall|i: int| 0 <= i < r.len() implies '\0' <= #[trigger] r[i] <= '\u{7f}'
            && !is_capital(r[i]) by {
            if i < at {
                assert(r[i] == st[i]);
            } else if i > at {
                assert(r[i] == ext[i - at - 1]);
            }
        }
    }
    lemma_lowercased_of_lowered(r);
    lemma_lowercased_of_lowered(ext);
    assert(r.skip(at + 1) == ext);
    lemma_last_dot_at(r, at);
    assert(r[0] == st[0]);
    assert(extension(r) == Some(ext));
    assert(lowered_extension(r) == Some(ext));
    let tail = substituted(ext);
    assert(substituted(r) == st + dot + tail) by {
        lemma_substituted_concat(st + dot, ext);
        lemma_substituted_concat(st, dot);
        lemma_substituted_of_clean(st);
        assert(dot == Seq::<char>::empty().push('.'));
        lemma_substituted_push(Seq::<char>::empty(), '.');
        assert(substituted(Seq::<char>::empty()) == Seq::<char>::empty());
    }
    assert((st + dot + tail).take(at) == st);
    lemma_first_dot_at(st + dot + tail, at);
    assert(stem(r, limit) == st);
}

/// The normalized form of an ASCII name whose stem is empty: a `.` and the
/// lowered extension. It has no extension of its own.
proof fn lemma_empty_stem(ext: Seq<char>, limit: Option<Limit>)
    requires
        is_lowered(ext),
        has_no_dot(ext),
    ensures
        normalized(seq!['.'] + ext, limit) == truncated(seq!['.'] + substituted(ext)),
{
    let dot = seq!['.'];
    let r = dot + ext;
    assert(is_lowered(r)) by {
        assert forall|i: int| 0 <= i < r.len() implies '\0' <= #[trigger] r[i] <= '\u{7f}'
            && !is_capital(r[i]) by {
            if i > 0 {
                assert(r[i] == ext[i - 1]);
            }
        }
    }
    lemma_lowercased_of_lowered(r);
    assert(r.skip(1) == ext);
    lemma_last_dot_at(r, 0);
    assert(extension(r) is None);
    assert(substituted(r) == dot + substituted(ext)) by {
        lemma_substituted_concat(dot, ext);
        assert(dot == Seq::<char>::empty().push('.'));
        lemma_substituted_push(Seq::<char>::empty(), '.');
        assert(substituted(Seq::<char>::empty()) == Seq::<char>::empty());
    }
}

/// The parts of the normalized form of an ASCII name: a lowered, clean stem
/// without `.` and a lowered extension without `.`, or a lowered, clean
/// name without extension.
proof fn lemma_normalized_ascii(name: Seq<char>, limit: Option<Limit>)
    requires
        is_ascii_chars(name),
    ensures
        is_lowered(normalized(name, limit)),
        match extension(name) {
            Some(ext) => {
                &&& is_ascii_chars(ext)
                &&& is_lowered(ascii_lowercase(ext))
                &&& has_no_dot(ascii_lowercase(ext))
                &&& is_clean(ascii_lowercase(ext)) == is_clean(ext)
                &&& ascii_lowercase(ext).len() == ext.len()
                &&& normalized(name, limit) == stem(ascii_lowercase(name), limit) + seq!['.']
                    + ascii_lowercase(ext)
            },
            None => {
                &&& is_clean(normalized(name, limit))
                &&& normalized(name, limit).len() <= TRUNCATED_LENGTH
                &&& extension(normalized(name, limit)) is None
            },
        },
{
    let lowered = ascii_lowercase(name);
    let r = normalized(name, limit);
    lemma_ascii_lowercase(name);
    lemma_extension(name);
    match extension(name) {
        Some(ext) => {
            let low_ext = ascii_lowercase(ext);
            let st = stem(lowered, limit);
            assert(is_ascii_chars(ext)) by {
                assert forall|i: int| 0 <= i < ext.len() implies '\0' <= #[trigger] ext[i]
                    <= '\u{7f}' by {
                    assert(ext[i] == name[name.len() - ext.len() + i]);
                }
            }
            lemma_ascii_lowercase(ext);
            lemma_stem(lowered, limit);
            assert(is_clean(low_ext) == is_clean(ext)) by {
                if is_clean(ext) {
                    assert forall|i: int| 0 <= i < low_ext.len() implies is_kept(
                        #[trigger] low_ext[i],
                    ) by {
                        assert(is_kept(ext[i]));
                    }
                }
                if is_clean(low_ext) {
                    assert forall|i: int| 0 <= i < ext.len() implies is_kept(#[trigger] ext[i]) by {
                        assert(is_kept(low_ext[i]));
                    }
                }
            }
            assert forall|i: int| 0 <= i < r.len() implies '\0' <= #[trigger] r[i] <= '\u{7f}'
                && !is_capital(r[i]) by {
                if i < st.len() {
                    assert(r[i] == st[i]);
                } else if i > st.len() {
                    assert(r[i] == low_ext[i - st.len() - 1]);
                }
            }
        },
        None => {
            let whole = substituted(lowered);
            lemma_substituted_of_lowered(lowered);
            lemma_substituted_chars(lowered);
            assert(r == whole.take(r.len() as int));
            assert forall|i: int| 0 <= i < r.len() implies '\0' <= #[trigger] r[i] <= '\u{7f}'
                && !is_capital(r[i]) && is_kept(r[i]) by {
                assert(r[i] == whole[i]);
            }
            if has_no_dot(name) {
                assert forall|i: int| 0 <= i < r.len() implies #[trigger] r[i] != '.' by {
                    assert(r[i] == whole[i]);
                    if whole[i] == '.' {
                        let j = choose|j: int| 0 <= j < lowered.len() && lowered[j] == whole[i];
                        assert(name[j] != '.');
                    }
                }
                lemma_no_dot(r);
            } else if is_parent_marker(name) {
                assert(is_clean(lowered));
                lemma_substituted_of_clean(lowered);
                assert(whole == lowered);
                assert(r == lowered);
                assert(is_parent_marker(r));
            } else {
                let dot = seq!['.'];
                let rest = lowered.skip(1);
                let tail = substituted(rest);
                assert(lowered == dot + rest);
                assert(whole == dot + tail) by {
                    lemma_substituted_concat(dot, rest);
                    assert(dot == Seq::<char>::empty().push('.'));
                    lemma_substituted_push(Seq::<char>::empty(), '.');
                    assert(substituted(Seq::<char>::empty()) == Seq::<char>::empty());
                }
                lemma_substituted_chars(rest);
                assert forall|i: int| 0 <= i < r.skip(1).len() implies #[trigger] r.skip(1)[i]
                    != '.' by {
                    assert(r.skip(1)[i] == tail[i]);
                    if tail[i] == '.' {
                        let j = choose|j: int| 0 <= j < rest.len() && rest[j] == tail[i];
                        assert(rest[j] == lowered[j + 1]);
                        assert(name.skip(1)[j] == name[j + 1]);
                    }
                }
                assert(r[0] == '.');
                lemma_last_dot_at(r, 0);
            }
        },
    }
}

/// An ASCII name that one pass does not settle. Its stem is empty, so its
/// normalized form is a `.` and the extension, which has no extension of its
/// own; and the extension holds what a second pass replaces, removes or cuts.
pub open spec fn is_unsettled(name: Seq<char>, limit: Option<Limit>) -> bool {
    &&& extension(name) matches Some(ext)
    &&& stem(ascii_lowercase(name), limit).len() == 0
    &&& (!is_clean(ext) || ext.len() >= TRUNCATED_LENGTH)
}

/// Normalizing is idempotent on ASCII names: the normalized form of a
/// normalized name is that name, for every ASCII name but the unsettled ones.
pub proof fn lemma_normalized_is_idempotent(name: Seq<char>, limit: Option<Limit>)
    requires
        is_ascii_chars(name),
        !is_unsettled(name, limit),
    ensures
        normalized(normalized(name, limit), limit) == normalized(name, limit),
{
    lemma_normalized_ascii(name, limit);
    let r = normalized(name, limit);
    match extension(name) {
        Some(ext) => {
            let low_ext = ascii_lowercase(ext);
            let st = stem(ascii_lowercase(name), limit);
            lemma_ascii_lowercase(name);
            lemma_stem(ascii_lowercase(name), limit);
            if st.len() > 0 {
                lemma_settled_with_extension(st, low_ext, limit);
            } else {
                lemma_empty_stem(low_ext, limit);
                lemma_substituted_of_clean(low_ext);
                assert(r == seq!['.'] + low_ext);
            }
        },
        None => {
            lemma_settled_without_extension(r, limit);
        },
    }
}

/// A second pass changes the normalized form of an unsettled ASCII name.
pub proof fn lemma_unsettled_is_not_idempotent(name: Seq<char>, limit: Option<Limit>)
    requires
        is_ascii_chars(name),
        is_unsettled(name, limit),
    ensures
        normalized(normalized(name, limit), limit) != normalized(name, limit),
{
    lemma_normalized_ascii(name, limit);
    let r = normalized(name, limit);
    let ext = extension(name).unwrap();
    let low_ext = ascii_lowercase(ext);
    let again = truncated(seq!['.'] + substituted(low_ext));
    lemma_empty_stem(low_ext, limit);
    assert(r == seq!['.'] + low_ext);
    lemma_substituted_chars(low_ext);
    if !is_clean(ext) {
        let j = choose|j: int| 0 <= j < low_ext.len() && !is_kept(#[trigger] low_ext[j]);
        if again == r {
            assert(again[j + 1] == substituted(low_ext)[j]);
            assert(r[j + 1] == low_ext[j]);
        }
    } else {
        lemma_substituted_of_clean(low_ext);
        assert(again.len() == TRUNCATED_LENGTH);
    }
}

/// No capital ASCII letter is left in the normalized form of an ASCII name.
pub proof fn lemma_normalized_has_no_capital(name: Seq<char>, limit: Option<Limit>)
    requires
        is_ascii_chars(name),
    ensures
        has_no_capital(normalized(name, limit)),
{
    lemma_normalized_ascii(name, limit);
}

/// Whatever the name, each character of its normalized form is an
/// underscore, a `.`, or a character of the lowercase form of the name or of
/// its extension: normalizing brings in no letter of its own.
pub proof fn lemma_normalized_is_made_of_lowercase(name: Seq<char>, limit: Option<Limit>)
    ensures
        forall|i: int|
            0 <= i < normalized(name, limit).len() ==> {
                let c = #[trigger] normalized(name, limit)[i];
                ||| c == '_'
                ||| c == '.'
                ||| lowercased(name).contains(c)
                ||| lowered_extension(name) matches Some(ext) && ext.contains(c)
            },
{
    let lowered = lowercased(name);
    let whole = substituted(lowered);
    let r = normalized(name, limit);
    lemma_substituted_chars(lowered);
    lemma_first_segment(whole);
    match lowered_extension(name) {
        Some(ext) => {
            let st = stem(lowered, limit);
            assert forall|i: int| 0 <= i < r.len() implies {
                let c = #[trigger] r[i];
                c == '_' || c == '.' || lowered.contains(c) || ext.contains(c)
            } by {
                if i < st.len() {
                    assert(r[i] == whole[i]);
                } else if i > st.len() {
                    assert(r[i] == ext[i - st.len() - 1]);
                }
            }
        },
        None => {
            assert forall|i: int| 0 <= i < r.len() implies {
                let c = #[trigger] r[i];
                c == '_' || c == '.' || lowered.contains(c)
            } by {
                assert(r[i] == whole[i]);
            }
        },
    }
}

/// Separators and stripped punctuation survive in the extension only. The
/// stem of a name that has an extension is clean; so is the normalized form
/// of a name that has none; and where the lowercase form of the extension
/// is clean, so is the whole normalized name.
pub proof fn lemma_normalized_is_clean(name: Seq<char>, limit: Option<Limit>)
    ensures
        is_clean(stem(lowercased(name), limit)),
        match lowered_extension(name) {
            Some(ext) => is_clean(ext) ==> is_clean(normalized(name, limit)),
            None => is_clean(normalized(name, limit)),
        },
{
    let lowered = lowercased(name);
    let whole = substituted(lowered);
    let st = stem(lowered, limit);
    let r = normalized(name, limit);
    lemma_substituted_chars(lowered);
    lemma_first_segment(whole);
    assert forall|i: int| 0 <= i < st.len() implies is_kept(#[trigger] st[i]) by {
        assert(st[i] == whole[i]);
    }
    match lowered_extension(name) {
        Some(ext) => {
            if is_clean(ext) {
                assert forall|i: int| 0 <= i < r.len() implies is_kept(#[trigger] r[i]) by {
                    if i < st.len() {
                        assert(r[i] == st[i]);
                    } else if i > st.len() {
                        assert(r[i] == ext[i - st.len() - 1]);
                    }
                }
            }
        },
        None => {
            assert forall|i: int| 0 <= i < r.len() implies is_kept(#[trigger] r[i]) by {
                assert(r[i] == whole[i]);
            }
        },
    }
}

/// For an ASCII name the extension is clean in lowercase exactly when it is
/// clean as written: the normalized form of an ASCII name with a clean
/// extension, or with none, is clean.
pub proof fn lemma_normalized_ascii_is_clean(name: Seq<char>, limit: Option<Limit>)
    requires
        is_ascii_chars(name),
        extension(name) matches Some(ext) ==> is_clean(ext),
    ensures
        is_clean(normalized(name, limit)),
{
    lemma_normalized_ascii(name, limit);
    lemma_normalized_is_clean(name, limit);
}

/// The substitution pass replaces each separator by one underscore in its
/// place and removes stripped punctuation without leaving anything for it:
/// its result is the name without its stripped characters, with an
/// underscore where a separator stood.
pub proof fn lemma_substitution_is_one_for_one(s: Seq<char>)
    ensures
        substituted(s) == s.filter(|c: char| !is_stripped(c)).map_values(
            |c: char|
                if is_separator(c) {
                    '_'
                } else {
                    c
                },
        ),
    decreases s.len(),
{
    reveal(Seq::filter);
    if s.len() > 0 {
        lemma_substitution_is_one_for_one(s.drop_last());
    }
}

/// A file is renamed only where its normalized name differs from its name,
/// is not taken in its directory, and the run is not a dry run.
pub proof fn lemma_rename_only_when_due(
    name: Seq<char>,
    new_name: Seq<char>,
    destination_exists: bool,
    dry_run: bool,
)
    ensures
        decision(name, new_name, destination_exists, dry_run) is Rename <==> new_name != name
            && !destination_exists && !dry_run,
        decision(name, new_name, destination_exists, dry_run) matches StepView::Rename(to) ==> to
            == new_name,
{
}

/// A file whose new name is taken is not renamed, whatever the mode of the
/// run: its outcome is an error, and the count stays as it is.
pub proof fn lemma_taken_name_is_an_error(name: Seq<char>, new_name: Seq<char>, dry_run: bool)
    requires
        new_name != name,
    ensures
        decision(name, new_name, true, dry_run) == StepView::Done(
            ReportView {
                outcome: OutcomeView::Error(exists_message(name)),
                notice: None,
                diagnostic: None,
            },
        ),
        counted(OutcomeView::Error(exists_message(name))) == 0,
{
}

/// A dry run renames nothing and counts nothing: each of its steps ends the
/// file's processing with an outcome that leaves the count as it is. Where
/// the new name differs and is free, it announces the renaming.
pub proof fn lemma_dry_run_changes_nothing(
    name: Seq<char>,
    new_name: Seq<char>,
    destination_exists: bool,
)
    ensures
        decision(name, new_name, destination_exists, true) matches StepView::Done(report)
            && counted(report.outcome) == 0,
        new_name != name && !destination_exists ==> decision(name, new_name, false, true)
            == StepView::Done(
            ReportView {
                outcome: OutcomeView::NoAction,
                notice: Some(dry_run_line(name, new_name)),
                diagnostic: None,
            },
        ),
{
}

/// A file that has its normalized name gets no new name, is left alone
/// without a word, and does not count.
pub proof fn lemma_normalized_file_is_left_alone(
    name: Seq<char>,
    limit: Option<Limit>,
    destination_exists: bool,
    dry_run: bool,
)
    requires
        normalized(name, limit) == name,
    ensures
        proposal(name, limit) is None,
        decision(name, normalized(name, limit), destination_exists, dry_run) == StepView::Done(
            ReportView { outcome: OutcomeView::NoAction, notice: None, diagnostic: None },
        ),
        counted(OutcomeView::NoAction) == 0,
{
}

/// Only a renaming that went through counts: the report after an attempt
/// counts one where there was no failure and none where there was.
pub proof fn lemma_only_success_counts(
    name: Seq<char>,
    new_name: Seq<char>,
    failure: Option<Seq<char>>,
    verbose: bool,
)
    ensures
        counted(conclusion(name, new_name, failure, verbose).outcome) == if failure is None {
            1nat
        } else {
            0nat
        },
{
}

} // verus!
