use clipmesh::clipboard::budget::{OfferBudget, OfferReader};
use clipmesh::clipboard::wayland::{
    assemble_offer, is_content_type, read_offer_blocking, write_offer_blocking, Listing,
    WaylandClipboard,
};
use clipmesh::offer::Offer;
use std::cell::{Cell, RefCell};

fn strings(v: &[&str]) -> Vec<String> {
    v.iter().map(|s| s.to_string()).collect()
}

#[test]
fn plan_declines_a_duplicate_and_machinery_and_budgets_the_rest() {
    let mut b = OfferBudget::new(100);
    assert_eq!(b.plan("TARGETS"), None, "machinery is never read");
    assert_eq!(b.plan("text/plain"), Some(100));
    assert!(b.accept("text/plain".into(), vec![0; 10]));
    assert_eq!(b.plan("text/plain"), None, "already in the offer");
    assert_eq!(b.plan("image/png"), Some(100 - "text/plain".len() - 10));
}

#[test]
fn accept_refuses_what_does_not_fit_and_charges_what_does() {
    let mut b = OfferBudget::new(20);
    assert!(!b.accept("a/x".into(), vec![0; 18]), "3 + 18 > 20");
    assert!(b.accept("a/x".into(), vec![0; 17]), "3 + 17 == 20 fits");
    assert_eq!(b.plan("b/x"), Some(0), "nothing left, but still asked");
    let (offer, total) = b.finish();
    assert_eq!(offer.len(), 1);
    assert_eq!(total, 20);
}

#[test]
fn a_reader_asks_for_each_type_with_what_is_left() {
    let mut reader = OfferReader::new(strings(&["TARGETS", "a/x", "a/x", "b/x", "c/x"]), 50);
    assert_eq!(reader.next(), Some(("a/x", 50)));
    reader.got(Some(vec![0; 20]));
    assert_eq!(reader.next(), Some(("b/x", 27)));
    reader.got(None);
    assert_eq!(reader.next(), Some(("c/x", 27)));
    reader.got(Some(vec![0; 25]));
    assert_eq!(reader.next(), None);
    let (offer, total) = reader.finish();
    assert_eq!(offer.keys().cloned().collect::<Vec<_>>(), ["a/x"]);
    assert_eq!(total, 23);
}

#[test]
fn assemble_offer_skips_unreadable_reps_and_keeps_the_rest() {
    // An X11/XWayland selection advertises pseudo-targets (no '/') that
    // error on read alongside the real content; the real type must survive.
    let types = strings(&["TARGETS", "image/png", "TIMESTAMP"]);
    let (offer, _) = assemble_offer(types, 1024, |mime: &str, _budget: usize| {
        if mime.contains('/') {
            Some(vec![1u8, 2, 3])
        } else {
            None
        }
    });
    assert_eq!(offer.len(), 1);
    assert_eq!(
        offer.get("image/png").map(Vec::as_slice),
        Some(&[1u8, 2, 3][..])
    );
}

#[test]
fn assemble_offer_drops_reps_over_budget_but_keeps_small_ones() {
    // The big rep reads up to budget+1 and is dropped; the small one stays.
    let types = strings(&["image/big", "text/plain"]);
    let (offer, total) = assemble_offer(types, 64, |mime: &str, budget: usize| {
        if mime == "image/big" {
            Some(vec![0u8; budget + 1])
        } else {
            Some(b"hi".to_vec())
        }
    });
    assert!(!offer.contains_key("image/big"));
    assert_eq!(offer.get("text/plain").map(Vec::as_slice), Some(&b"hi"[..]));
    assert_eq!(total, "text/plain".len() + 2); // running total, not recomputed
}

#[test]
fn assemble_offer_is_empty_when_everything_fails() {
    let types = strings(&["image/png", "text/plain"]);
    let (offer, total) = assemble_offer(types, 1024, |_mime: &str, _budget: usize| None);
    assert!(offer.is_empty());
    assert_eq!(total, 0);
}

#[test]
fn content_type_classification_covers_x11_text_atoms() {
    // Real MIME types and the X11 text atoms are content (a failed read is
    // worth a warn); selection-metadata atoms are not.
    for m in [
        "image/png",
        "text/plain",
        "STRING",
        "UTF8_STRING",
        "TEXT",
        "COMPOUND_TEXT",
    ] {
        assert!(is_content_type(m), "{m} should be content");
    }
    for m in [
        "TARGETS",
        "TIMESTAMP",
        "MULTIPLE",
        "SAVE_TARGETS",
        "TK_SELECTION",
    ] {
        assert!(!is_content_type(m), "{m} should not be content");
    }
}

#[test]
fn assemble_offer_never_spends_a_read_on_selection_machinery() {
    let attempted: RefCell<Vec<String>> = RefCell::new(Vec::new());
    let (offer, total) = assemble_offer(
        strings(&[
            "TARGETS",
            "TIMESTAMP",
            "MULTIPLE",
            "SAVE_TARGETS",
            "text/plain",
        ]),
        1024,
        |mime: &str, _: usize| {
            attempted.borrow_mut().push(mime.to_string());
            Some(b"hi".to_vec())
        },
    );
    assert_eq!(
        *attempted.borrow(),
        vec!["text/plain"],
        "a selection target was read"
    );
    assert_eq!(offer.len(), 1);
    assert_eq!(total, "text/plain".len() + 2);
}

#[test]
fn assemble_offer_still_attempts_an_unrecognised_atom() {
    // Only the known machinery is skipped: an app-specific slashless atom
    // might genuinely carry data, so it is still tried.
    let attempted: RefCell<Vec<String>> = RefCell::new(Vec::new());
    let (offer, _) = assemble_offer(strings(&["MY_APP_DATA"]), 1024, |mime: &str, _: usize| {
        attempted.borrow_mut().push(mime.to_string());
        Some(b"payload".to_vec())
    });
    assert_eq!(*attempted.borrow(), vec!["MY_APP_DATA"]);
    assert!(offer.contains_key("MY_APP_DATA"));
}

#[test]
fn assemble_offer_dedups_a_doubly_advertised_type() {
    let types = strings(&["a/x", "a/x", "b/x"]);
    let reads = Cell::new(0);
    let (offer, _) = assemble_offer(types, 50, |_m: &str, _b: usize| {
        reads.set(reads.get() + 1);
        Some(vec![0u8; 20]) // mime(3) + 20 = 23 per rep; two fit in 50, three don't
    });
    assert!(
        offer.contains_key("a/x") && offer.contains_key("b/x"),
        "the duplicate must not double-count and evict b/x"
    );
    assert_eq!(reads.get(), 2, "the duplicate type should not be read twice");
}

#[test]
fn assemble_offer_preserves_advertised_order() {
    let types = strings(&["text/html", "text/plain", "image/png"]);
    let (offer, _) = assemble_offer(types, 1024, |_m: &str, _b: usize| Some(vec![1u8, 2, 3]));
    assert_eq!(
        offer.keys().map(String::as_str).collect::<Vec<_>>(),
        ["text/html", "text/plain", "image/png"]
    );
}

#[test]
fn assemble_offer_truncation_follows_advertised_order() {
    // Over budget, the earlier-advertised (more-preferred) rep is the one
    // that survives — not whichever sorts first alphabetically.
    let types = strings(&["z/pref", "a/other"]);
    let (offer, _) = assemble_offer(types, 50, |_m: &str, _b: usize| Some(vec![0u8; 40]));
    assert!(
        offer.contains_key("z/pref") && !offer.contains_key("a/other"),
        "the first-advertised rep should win the budget"
    );
}

#[test]
fn a_narrowed_read_reads_one_type() {
    assert_eq!(WaylandClipboard::new(77).max_payload(), 77);
    let reads = RefCell::new(Vec::new());
    let offer = read_offer_blocking(
        Listing::Types(strings(&["text/html", "text/plain"])),
        Some("TEXT/PLAIN"),
        1024,
        |mime: &str, _: usize| {
            reads.borrow_mut().push(mime.to_string());
            Some(b"x".to_vec())
        },
    )
    .unwrap();
    assert_eq!(*reads.borrow(), ["text/plain"]);
    assert_eq!(offer.keys().cloned().collect::<Vec<_>>(), ["text/plain"]);
    let empty = read_offer_blocking(Listing::Nothing, None, 1024, |_: &str, _: usize| {
        Some(Vec::new())
    });
    assert!(empty.unwrap().is_empty());
    let failed = read_offer_blocking(
        Listing::Failed("no seat".to_string()),
        None,
        1024,
        |_: &str, _: usize| Some(Vec::new()),
    );
    assert!(failed.is_err());
}

#[test]
fn a_write_hands_over_every_representation_in_order() {
    let mut offer = Offer::new();
    assert!(write_offer_blocking(&offer).is_none(), "nothing to write");
    offer.insert("text/html".to_string(), b"<b>".to_vec());
    offer.insert("text/plain".to_string(), b"b".to_vec());
    assert_eq!(
        write_offer_blocking(&offer).unwrap(),
        vec![
            ("text/html".to_string(), b"<b>".to_vec()),
            ("text/plain".to_string(), b"b".to_vec()),
        ]
    );
}
