use clipmesh::offer::{offer_types, Offer};
use clipmesh::protocol::{
    content_hash, describe_offer, human_bytes, is_text, is_text_plain, type_matches, Hashed,
    SelectionKind, Version,
};
use std::sync::Arc;

fn offer(pairs: &[(&str, &[u8])]) -> Offer {
    pairs
        .iter()
        .map(|(m, b)| (m.to_string(), b.to_vec()))
        .collect()
}

#[test]
fn hashed_carries_the_hash_of_its_content() {
    let o = offer(&[("text/html", b"<b>hi</b>"), ("text/plain", b"hi")]);
    let h = Hashed::new(o.clone());
    assert_eq!(h.hash(), content_hash(&o));
    assert_eq!(h.offer(), &o);
    assert!(!h.is_empty());
    assert_eq!(h.into_offer(), o, "the content round-trips unchanged");

    assert!(Hashed::new(Offer::new()).is_empty());
}

#[test]
fn shared_content_is_handed_back_as_it_is() {
    let o = Arc::new(offer(&[("a/b", b"x")]));
    let h = Hashed::from_arc(o.clone());
    assert_eq!(h.hash(), content_hash(&o));
    assert_eq!(h.into_arc(), o);
    assert_eq!(Hashed::from_arc(o.clone()).into_offer(), *o);
}

#[test]
fn content_hash_is_deterministic_and_order_independent() {
    // content_hash sorts a copy of the pairs, so insertion order must not
    // matter even though the Offer (IndexMap) preserves it.
    let a = offer(&[("text/plain", b"hi"), ("text/html", b"<b>hi</b>")]);
    let b = offer(&[("text/html", b"<b>hi</b>"), ("text/plain", b"hi")]);
    assert_eq!(content_hash(&a), content_hash(&b));
}

#[test]
fn content_hash_differs_for_different_content() {
    let a = offer(&[("text/plain", b"hi")]);
    let b = offer(&[("text/plain", b"ho")]);
    assert_ne!(content_hash(&a), content_hash(&b));
}

#[test]
fn content_hash_is_not_confused_by_boundary_shifts() {
    // ("ab", "c") must hash differently from ("a", "bc")
    let a = offer(&[("ab", b"c")]);
    let b = offer(&[("a", b"bc")]);
    assert_ne!(content_hash(&a), content_hash(&b));
}

#[test]
fn content_hash_is_the_digest_of_the_framed_content() {
    let mut bytes = Vec::new();
    for (mime, data) in [("a/b", &b"xy"[..]), ("c/d", &b""[..])] {
        bytes.extend_from_slice(&(mime.len() as u64).to_le_bytes());
        bytes.extend_from_slice(mime.as_bytes());
        bytes.extend_from_slice(&(data.len() as u64).to_le_bytes());
        bytes.extend_from_slice(data);
    }
    assert_eq!(
        content_hash(&offer(&[("c/d", b""), ("a/b", b"xy")])),
        *blake3::hash(&bytes).as_bytes()
    );
}

#[test]
fn describe_offer_lists_mimes_and_sizes_in_insertion_order() {
    // IndexMap iterates in insertion order, so the order the pairs were
    // built in is preserved (text/plain was inserted first here).
    let o = offer(&[("text/plain", b"hi"), ("image/png", b"\x89PNG")]);
    assert_eq!(describe_offer(&o), "text/plain=2 B, image/png=4 B");
    assert_eq!(describe_offer(&Offer::new()), "");
    assert_eq!(offer_types(&o), ["text/plain", "image/png"]);
}

#[test]
fn human_bytes_scales_units() {
    assert_eq!(human_bytes(0), "0 B");
    assert_eq!(human_bytes(269), "269 B");
    assert_eq!(human_bytes(1023), "1023 B");
    assert_eq!(human_bytes(1024), "1.0 KiB");
    assert_eq!(human_bytes(72081), "70.4 KiB");
    assert_eq!(human_bytes(8 * 1024 * 1024), "8.0 MiB");
    assert_eq!(human_bytes(1024 * 1024 * 1024), "1.0 GiB");
}

#[test]
fn human_bytes_rolls_over_at_unit_boundaries() {
    // A value just under a unit must roll to the next unit when it would
    // otherwise round to "1024.0" of the smaller unit.
    assert_eq!(human_bytes(1024 * 1024 - 1), "1.0 MiB");
    assert_eq!(human_bytes(1024 * 1024 * 1024 - 1), "1.0 GiB");
}

#[test]
fn human_bytes_shows_what_dividing_and_rounding_shows() {
    for n in [1024usize, 1076, 1280, 1331, 1382, 1792, 2048, 5000, 102_399, 1_047_552] {
        assert_eq!(human_bytes(n), format!("{:.1} KiB", n as f64 / 1024.0), "{n}");
    }
    for n in [1_048_576usize, 1_310_720, 5_000_000, 999_999_999] {
        let shown = format!("{:.1} MiB", n as f64 / 1_048_576.0);
        assert_eq!(human_bytes(n), shown, "{n}");
    }
}

#[test]
fn types_match_whatever_their_case() {
    assert!(type_matches("image/PNG", "IMAGE/png"));
    assert!(!type_matches("image/png", "image/pn"));
    assert!(is_text("text/html"));
    assert!(!is_text("image/png"));
    assert!(is_text_plain("text/plain"));
    assert!(!is_text_plain("text/html"));
    assert_ne!(SelectionKind::Clipboard.name(), SelectionKind::Selection.name());
    assert_ne!(SelectionKind::Clipboard.index(), SelectionKind::Selection.index());
}

#[test]
fn the_later_version_wins_and_the_origin_breaks_a_tie() {
    assert!(Version::new(2, 1) > Version::new(1, 9));
    assert!(Version::new(2, 2) > Version::new(2, 1));
    assert_eq!(Version::new(2, 2), Version::new(2, 2));
}
