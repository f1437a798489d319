use clipmesh::clipboard::atoms::{is_content, is_machinery, latin1_to_utf8, text_value};
use clipmesh::offer::Offer;

fn offer(pairs: &[(&str, &[u8])]) -> Offer {
    pairs
        .iter()
        .map(|(m, b)| (m.to_string(), b.to_vec()))
        .collect()
}

#[test]
fn content_types_are_mime_types_and_the_text_atoms() {
    for m in [
        "text/plain",
        "image/png",
        "STRING",
        "UTF8_STRING",
        "TEXT",
        "COMPOUND_TEXT",
    ] {
        assert!(is_content(m), "{m} should be content");
    }
    for m in ["TARGETS", "TIMESTAMP", "MULTIPLE", "TK_SOMETHING"] {
        assert!(!is_content(m), "{m} should not be content");
    }
}

#[test]
fn machinery_is_an_exact_list_not_the_complement_of_content() {
    assert!(is_machinery("TARGETS"));
    // Slashless and not content, but not a known target either: still worth
    // attempting, because it might carry data.
    assert!(!is_machinery("TK_SOMETHING"));
}

#[test]
fn text_value_prefers_utf8_string_over_the_weaker_atoms() {
    let o = offer(&[("TEXT", b"from-text"), ("UTF8_STRING", b"from-utf8")]);
    assert_eq!(text_value(&o), Some(("UTF8_STRING", b"from-utf8".to_vec())));
}

#[test]
fn text_value_decodes_string_as_latin1() {
    // 0xE9 is é in latin-1; as UTF-8 it must become the two-byte encoding.
    let o = offer(&[("STRING", &[0xE9])]);
    assert_eq!(text_value(&o), Some(("STRING", "é".as_bytes().to_vec())));
}

#[test]
fn text_value_keeps_valid_utf8_text_verbatim_and_falls_back_otherwise() {
    let o = offer(&[("TEXT", "é".as_bytes())]);
    assert_eq!(text_value(&o), Some(("TEXT", "é".as_bytes().to_vec())));
    // Not valid UTF-8, so it is read as latin-1 instead.
    let o = offer(&[("TEXT", &[0xE9])]);
    assert_eq!(text_value(&o), Some(("TEXT", "é".as_bytes().to_vec())));
}

#[test]
fn text_value_strips_trailing_nuls_and_one_line_terminator() {
    assert_eq!(
        text_value(&offer(&[("UTF8_STRING", b"hi\0\0")])),
        Some(("UTF8_STRING", b"hi".to_vec()))
    );
    assert_eq!(
        text_value(&offer(&[("UTF8_STRING", b"hi\r\n")])),
        Some(("UTF8_STRING", b"hi".to_vec()))
    );
    // Only ONE terminator is stripped: a deliberate blank line survives.
    assert_eq!(
        text_value(&offer(&[("UTF8_STRING", b"hi\n\n")])),
        Some(("UTF8_STRING", b"hi\n".to_vec()))
    );
}

#[test]
fn text_value_is_none_without_a_plaintext_atom() {
    assert_eq!(text_value(&offer(&[("COMPOUND_TEXT", b"x")])), None);
    assert_eq!(text_value(&offer(&[("image/png", b"x")])), None);
}

#[test]
fn latin1_bytes_become_the_utf8_of_their_code_points() {
    let all: Vec<u8> = (0..=255u8).collect();
    let expected: String = all.iter().map(|b| *b as char).collect();
    assert_eq!(latin1_to_utf8(&all), expected.into_bytes());
}
