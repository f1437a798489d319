use clipmesh::clipboard::io::{ClipboardIo, Origin};
use clipmesh::clipboard::mock::{MockClipboard, MockRead};
use clipmesh::clipboard::ClipboardEvent;
use clipmesh::offer::Offer;
use clipmesh::protocol::{Hashed, SelectionKind};

fn offer(text: &str) -> Offer {
    [("text/plain".to_string(), text.as_bytes().to_vec())]
        .into_iter()
        .collect()
}

/// What a read of the clipboard gives, within the time it may take.
fn read(clip: &MockClipboard, kind: SelectionKind) -> Option<Offer> {
    match clip.read_offer(kind, None) {
        Ok(MockRead::Content(o)) => Some(o),
        Ok(MockRead::Stalled) => None,
        Err(_) => None,
    }
}

/// Writes through the gateway, as the engine does.
fn write(io: &mut ClipboardIo, clip: &mut MockClipboard, kind: SelectionKind, o: Offer) -> bool {
    io.write(kind, &Hashed::new(o.clone()));
    let ok = clip.write_offer(kind, o).is_ok();
    io.written(kind, ok)
}

fn origin_of(io: &mut ClipboardIo, clip: &MockClipboard, kind: SelectionKind) -> Origin {
    io.read_classified(kind, read(clip, kind))
        .expect("read failed")
        .1
}

#[test]
fn a_write_reads_back_as_an_echo_exactly_once() {
    let mut clip = MockClipboard::new();
    let mut io = ClipboardIo::new();
    assert!(write(&mut io, &mut clip, SelectionKind::Clipboard, offer("x")));
    assert_eq!(
        origin_of(&mut io, &clip, SelectionKind::Clipboard),
        Origin::Echo,
        "the engine's own write must not propagate"
    );
    // One-shot: a second identical copy by the user is a real change.
    assert_eq!(
        origin_of(&mut io, &clip, SelectionKind::Clipboard),
        Origin::User,
        "a stale marker must not suppress a later genuine copy"
    );
}

#[test]
fn a_plain_read_does_not_consume_the_echo_marker() {
    let mut clip = MockClipboard::new();
    let mut io = ClipboardIo::new();
    write(&mut io, &mut clip, SelectionKind::Clipboard, offer("x"));
    io.read(read(&clip, SelectionKind::Clipboard))
        .expect("read failed");
    assert_eq!(
        origin_of(&mut io, &clip, SelectionKind::Clipboard),
        Origin::Echo,
        "a plain read consumed the marker the classifier needed"
    );
}

#[test]
fn a_failed_write_reads_back_as_a_user_change() {
    // No echo follows a write that never happened, so a later genuine copy
    // of the same bytes must not be swallowed as one.
    let mut clip = MockClipboard::new();
    clip.set_fail_writes(true);
    let mut io = ClipboardIo::new();
    assert!(!write(&mut io, &mut clip, SelectionKind::Clipboard, offer("x")));
    clip.set_fail_writes(false);
    clip.local_copy(SelectionKind::Clipboard, offer("x"));
    assert_eq!(
        origin_of(&mut io, &clip, SelectionKind::Clipboard),
        Origin::User
    );
}

#[test]
fn a_read_that_never_answers_times_out_instead_of_stalling() {
    let mut clip = MockClipboard::new();
    clip.block_reads();
    let io = ClipboardIo::new();
    assert!(io.read(read(&clip, SelectionKind::Clipboard)).is_none());
    clip.allow_reads();
    assert!(io.read(read(&clip, SelectionKind::Clipboard)).is_some());
}

#[test]
fn a_failed_read_keeps_the_echo_marker() {
    let mut clip = MockClipboard::new();
    let mut io = ClipboardIo::new();
    write(&mut io, &mut clip, SelectionKind::Clipboard, offer("x"));
    clip.set_fail_reads(true);
    let failed = read(&clip, SelectionKind::Clipboard);
    assert!(io.read_classified(SelectionKind::Clipboard, failed).is_none());
    clip.set_fail_reads(false);
    assert_eq!(
        origin_of(&mut io, &clip, SelectionKind::Clipboard),
        Origin::Echo
    );
}

#[test]
fn an_echo_is_known_in_any_order_of_its_types() {
    let mut io = ClipboardIo::new();
    let pairs = [("a/a", b"1".to_vec()), ("b/b", b"2".to_vec())];
    let forth: Offer = pairs.iter().map(|(m, d)| (m.to_string(), d.clone())).collect();
    let back: Offer = pairs.iter().rev().map(|(m, d)| (m.to_string(), d.clone())).collect();
    io.write(SelectionKind::Selection, &Hashed::new(forth));
    let (_, origin) = io
        .read_classified(SelectionKind::Selection, Some(back))
        .unwrap();
    assert_eq!(origin, Origin::Echo);
}

#[test]
fn local_copy_notifies_watchers_and_updates_state() {
    let mut clip = MockClipboard::new();
    let watch = clip.watch();
    clip.local_copy(SelectionKind::Clipboard, offer("hello"));
    assert_eq!(
        clip.recv(watch),
        Some(ClipboardEvent::Changed(SelectionKind::Clipboard))
    );
    assert_eq!(read(&clip, SelectionKind::Clipboard).unwrap(), offer("hello"));
}

#[test]
fn write_offer_counts_and_notifies_like_a_real_clipboard() {
    let mut clip = MockClipboard::new();
    let watch = clip.watch();
    assert_eq!(clip.write_count(), 0);
    clip.write_offer(SelectionKind::Clipboard, offer("net"))
        .unwrap();
    assert_eq!(clip.write_count(), 1);
    assert_eq!(clip.get(SelectionKind::Clipboard), Some(offer("net")));
    // real clipboards re-fire the watcher on programmatic set
    assert_eq!(
        clip.recv(watch),
        Some(ClipboardEvent::Changed(SelectionKind::Clipboard))
    );
}

#[test]
fn selections_are_independent() {
    let mut clip = MockClipboard::new();
    clip.local_copy(SelectionKind::Selection, offer("prim"));
    assert_eq!(read(&clip, SelectionKind::Clipboard).unwrap(), Offer::new());
    assert_eq!(read(&clip, SelectionKind::Selection).unwrap(), offer("prim"));
}

#[test]
fn a_seeded_selection_is_reported_to_a_watcher() {
    let mut clip = MockClipboard::new();
    clip.seed(SelectionKind::Clipboard, offer("old"));
    let watch = clip.watch();
    assert_eq!(clip.watcher_count(), 1);
    assert_eq!(
        clip.recv(watch),
        Some(ClipboardEvent::Initial {
            kind: SelectionKind::Clipboard,
            offer: offer("old"),
        })
    );
    assert_eq!(clip.recv(watch), None);
    assert_eq!(clip.list_types(SelectionKind::Clipboard), ["text/plain"]);
}
