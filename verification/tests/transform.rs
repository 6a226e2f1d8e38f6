use filename_normalizer::{compose, extension_of, transform, Limit, TRUNCATED_LENGTH};

fn limit(value: i64) -> Option<Limit> {
    Some(Limit::new(value).unwrap())
}

#[test]
fn lowercases_ascii_letters() {
    assert_eq!(transform("ABC", None), "abc");
    assert_eq!(transform("AZaz09@[`{", None), "azaz09@[`{");
}

#[test]
fn extension_is_preserved_in_lowercase() {
    assert_eq!(transform("My File.TXT", None), "my_file.txt");
}

/// A name with several dots keeps what stands before its first dot and what
/// stands behind its last one. This may well be unintended; it is how the
/// rules are laid down.
#[test]
fn name_is_split_at_its_first_dot() {
    assert_eq!(transform("a.b.c.txt", None), "a.txt");
    assert_eq!(transform("archive.tar.gz", limit(20)), "archive.gz");
}

/// The limit decides whether a stem is cut, not where: the cut is always at
/// `TRUNCATED_LENGTH` characters.
#[test]
fn stem_over_the_limit_is_cut_to_thirty() {
    let stem = "a".repeat(40);
    let name = format!("{}.txt", stem);
    let expected = format!("{}.txt", "a".repeat(30));
    assert_eq!(TRUNCATED_LENGTH, 30);
    assert_eq!(transform(&name, limit(25)), expected);
    assert_eq!(transform(&name, limit(20)), expected);
}

#[test]
fn stem_within_the_limit_is_kept() {
    let name = format!("{}.txt", "a".repeat(40));
    assert_eq!(transform(&name, limit(40)), name);
    assert_eq!(transform(&name, limit(100)), name);
}

#[test]
fn stem_is_kept_without_a_limit() {
    let name = format!("{}.txt", "b".repeat(70));
    assert_eq!(transform(&name, None), name);
}

#[test]
fn short_stem_over_the_limit_is_not_lengthened() {
    let name = format!("{}.txt", "c".repeat(25));
    assert_eq!(transform(&name, limit(20)), name);
}

#[test]
fn name_without_extension_is_cut_whatever_the_limit() {
    let name = "d".repeat(40);
    let expected = "d".repeat(30);
    assert_eq!(transform(&name, None), expected);
    assert_eq!(transform(&name, limit(100)), expected);
    assert_eq!(transform(&"d".repeat(30), None), "d".repeat(30));
    assert_eq!(transform(&"d".repeat(31), None), "d".repeat(30));
}

#[test]
fn length_is_counted_in_characters() {
    let long = "é".repeat(31);
    assert_eq!(transform(&long, None), "é".repeat(30));
    let name = format!("{}.txt", "é".repeat(40));
    assert_eq!(transform(&name, limit(50)), name);
    assert_eq!(transform(&name, limit(39)), format!("{}.txt", "é".repeat(30)));
}

#[test]
fn separators_become_underscores() {
    assert_eq!(transform("a b-c  d--e.txt", None), "a_b_c__d__e.txt");
    assert_eq!(transform(" - ", None), "___");
}

#[test]
fn punctuation_is_removed() {
    assert_eq!(transform("a!b,c(d)e'f\"g*h.txt", None), "abcdefgh.txt");
    assert_eq!(transform("!,()'\"*", None), "");
}

#[test]
fn other_characters_pass_through() {
    assert_eq!(transform("a_b+c=d[e]{f}~#.md", None), "a_b+c=d[e]{f}~#.md");
    assert_eq!(transform("a\u{0}b", None), "a\u{0}b");
}

#[test]
fn empty_name_stays_empty() {
    assert_eq!(transform("", None), "");
    assert_eq!(transform("", limit(20)), "");
}

#[test]
fn dot_names_have_no_extension() {
    assert_eq!(transform(".", None), ".");
    assert_eq!(transform("..", None), "..");
    assert_eq!(transform(".Bash RC", None), ".bash_rc");
    assert_eq!(transform(&format!(".{}", "x".repeat(40)), limit(20)), format!(".{}", "x".repeat(29)));
}

#[test]
fn empty_extension_keeps_its_dot() {
    assert_eq!(transform("File.", None), "file.");
    assert_eq!(transform("...", None), ".");
}

/// The extension is lowercased and otherwise kept as written, so a
/// separator or punctuation in it survives.
#[test]
fn extension_is_not_substituted() {
    assert_eq!(transform("a.b c", None), "a.b c");
    assert_eq!(transform("A.B!", None), "a.b!");
    assert_eq!(transform("My-File.T-X T", None), "my_file.t-x t");
}

#[test]
fn names_beyond_ascii_are_lowercased() {
    assert_eq!(transform("ÉCOLE.TXT", None), "école.txt");
    assert_eq!(transform("Ünïcödé Name.PDF", None), "ünïcödé_name.pdf");
    assert_eq!(transform("notes.ÄÖ", None), "notes.äö");
    assert_eq!(transform("农历新年.TXT", None), "农历新年.txt");
}

#[test]
fn transform_agrees_with_std_lowercase_on_ascii() {
    let name = "The QUICK Brown fox JUMPS";
    assert_eq!(transform(name, None), name.to_lowercase().replace(' ', "_"));
}

#[test]
fn transform_is_idempotent_on_samples() {
    let names = [
        "My File.TXT",
        "a.b.c.txt",
        "Report (Final)!.PDF",
        "my-notes.TXT",
        "already_ok.txt",
        ".hidden",
        "",
        "no extension at all but quite a long name indeed",
        "ÉCOLE.TXT",
    ];
    for name in names {
        for l in [None, limit(20), limit(25), limit(100)] {
            let once = transform(name, l);
            assert_eq!(transform(&once, l), once);
        }
    }
}

/// A name whose stem is empty and whose extension holds a separator is not
/// settled by one pass: its normalized form begins with a dot, has no
/// extension of its own, and is substituted as a whole the next time.
#[test]
fn unsettled_name_changes_twice() {
    let once = transform("!.a b", None);
    assert_eq!(once, ".a b");
    assert_eq!(transform(&once, None), ".a_b");
    let long = format!(".x.{}", "y".repeat(30));
    let once = transform(&long, None);
    assert_eq!(once, format!(".{}", "y".repeat(30)));
    assert_eq!(transform(&once, None), format!(".{}", "y".repeat(29)));
}

#[test]
fn no_capital_is_left_in_ascii_names() {
    for name in ["HELLO World.TXT", "ABC", "X.Y.Z", "MiXeD-Case (1).JpG"] {
        assert!(!transform(name, None).chars().any(|c| c.is_ascii_uppercase()));
    }
}

#[test]
fn extension_follows_the_last_dot() {
    assert_eq!(extension_of("foo.rs"), Some("rs"));
    assert_eq!(extension_of("foo.tar.gz"), Some("gz"));
    assert_eq!(extension_of("foo."), Some(""));
    assert_eq!(extension_of("..."), Some(""));
    assert_eq!(extension_of("a.B c"), Some("B c"));
}

#[test]
fn some_names_have_no_extension() {
    assert_eq!(extension_of("foo"), None);
    assert_eq!(extension_of(""), None);
    assert_eq!(extension_of("."), None);
    assert_eq!(extension_of(".."), None);
    assert_eq!(extension_of(".bashrc"), None);
}

#[test]
fn extension_agrees_with_std_path() {
    for name in ["foo.rs", "foo.tar.gz", "foo.", "...", "foo", "", ".", "..", ".bashrc", ".a.b", "é.ü"] {
        let expected = std::path::Path::new(name).extension().map(|e| e.to_str().unwrap());
        assert_eq!(extension_of(name), expected);
    }
}

#[test]
fn compose_works_on_lowered_parts() {
    assert_eq!(compose("my file.txt", Some("txt"), None), "my_file.txt");
    assert_eq!(compose("a.b.c.txt", Some("txt"), None), "a.txt");
    assert_eq!(compose("my file", None, None), "my_file");
    assert_eq!(compose(&"k".repeat(40), Some("e"), limit(25)), format!("{}.e", "k".repeat(30)));
    assert_eq!(compose(&"k".repeat(40), None, None), "k".repeat(30));
    assert_eq!(compose("KEEP.x", Some("Y!"), None), "KEEP.Y!");
}
