use clipmesh::glob::{eq_ignore_case, glob_match, has_wildcard, key_weights};

#[test]
fn glob_match_handles_star_question_and_case() {
    assert!(glob_match("text/plain", "text/plain")); // exact
    assert!(glob_match("TEXT/PLAIN", "text/plain")); // case-insensitive
    assert!(glob_match("JAVA*", "JAVA_DATATRANSFER_COOKIE_abc")); // trailing *
    assert!(glob_match(
        "*;charset=utf-16*",
        "text/plain;charset=utf-16le"
    )); // *...*
    assert!(glob_match("*/utf8*", "application/utf8-data")); // needs a literal /utf8
    assert!(!glob_match("*/utf8*", "image/x-utf8-thing")); // /x-utf8 is not /utf8
    assert!(glob_match("image/???", "image/png")); // ? = one char each
    assert!(!glob_match("image/???", "image/jpeg")); // wrong length
    assert!(glob_match("JAVA*", "java_lowercase_is_matched")); // literal case folds too
    assert!(!glob_match("text/*", "image/png")); // prefix mismatch
    assert!(glob_match("*", "anything at all")); // bare * matches all
}

#[test]
fn glob_match_handles_empty_and_boundary_patterns() {
    assert!(glob_match("", "")); // empty pattern matches only empty text
    assert!(!glob_match("", "x"));
    assert!(!glob_match("a?", "a")); // trailing ? needs a character
    assert!(!glob_match("?", "")); // ? needs a character
    assert!(glob_match("**", "abc")); // adjacent stars
    assert!(glob_match("a**b", "aXYZb")); // double star mid-pattern
    assert!(!glob_match("a*a", "a")); // a trailing literal a star can't fill
    assert!(glob_match("a*a", "aba"));
    assert!(glob_match("*x", "x")); // leading star may match empty
}

#[test]
fn a_star_in_the_text_is_an_ordinary_byte() {
    assert!(glob_match("a*c", "a*bc"));
    assert!(!glob_match("ab", "a*"));
    assert!(glob_match("*b", "*ab"));
}

#[test]
fn matching_ignores_the_case_of_ascii_letters_only() {
    for (p, t) in [("Ab*", "aBxyz"), ("*Q?", "zzqq"), ("é*", "É")] {
        assert_eq!(
            glob_match(p, t),
            glob_match(&p.to_ascii_lowercase(), &t.to_ascii_uppercase()),
            "{p} {t}"
        );
    }
    assert!(eq_ignore_case(b"Text/PLAIN", b"tEXT/plain"));
    assert!(!eq_ignore_case(b"a", b"ab"));
    assert!(!eq_ignore_case("é".as_bytes(), "É".as_bytes()));
}

#[test]
fn a_keys_weight_counts_literals_and_wildcards() {
    assert!(has_wildcard("image/*"));
    assert!(has_wildcard("a?b"));
    assert!(!has_wildcard("image/png"));
    let (a, b) = key_weights("im?ge/*");
    assert_eq!(a + b, 7);
    assert_eq!(key_weights("text/plain").0.max(key_weights("text/plain").1), 10);
}
