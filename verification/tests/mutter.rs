use clipmesh::clipboard::budget::OfferReader;
use clipmesh::clipboard::mutter::{
    parse_owner_changed, MutterClipboard, OwnerChange, ReadPlan, SessionAction, SessionEvent,
    SessionPhase, Stop, TransferEnd, WriteStep,
};
use clipmesh::clipboard::watch::{watch_again, StopReason, WatchAction, WatchEvent, WatchState};
use clipmesh::clipboard::{ClipboardEvent, Connect};
use clipmesh::offer::Offer;
use clipmesh::protocol::SelectionKind;
use std::sync::Arc;

const CLIPBOARD: SelectionKind = SelectionKind::Clipboard;

fn offer(pairs: &[(&str, &[u8])]) -> Offer {
    pairs
        .iter()
        .map(|(m, b)| (m.to_string(), b.to_vec()))
        .collect()
}

fn text_offer(text: &str) -> Offer {
    offer(&[("text/plain", text.as_bytes())])
}

fn changed() -> ClipboardEvent {
    ClipboardEvent::Changed(CLIPBOARD)
}

/// A backend on a compositor that is played here: it holds one owner's content, and
/// counts how often it is read.
struct Fake {
    clip: MutterClipboard,
    phase: SessionPhase,
    /// What the compositor's current owner offers, unless we are the owner.
    content: Option<Vec<(String, Vec<u8>)>>,
    ours: bool,
    listening: bool,
    seen: Vec<ClipboardEvent>,
    reads: usize,
    over: Option<Stop>,
    failed: Option<String>,
}

impl Fake {
    fn new(max_payload: usize, seed: &[(&str, &[u8])]) -> Fake {
        let mut clip = MutterClipboard::new(max_payload);
        let (_, start) = clip.watch();
        assert!(start, "the first subscriber starts a session task");
        let mut fake = Fake {
            clip,
            phase: SessionPhase::Enabling,
            content: None,
            ours: false,
            listening: true,
            seen: Vec::new(),
            reads: 0,
            over: None,
            failed: None,
        };
        if !seed.is_empty() {
            fake.content = Some(pairs(seed));
        }
        fake
    }

    fn change(&self) -> OwnerChange {
        OwnerChange {
            types: match &self.content {
                Some(c) => c.iter().map(|(m, _)| m.clone()).collect(),
                None => Vec::new(),
            },
            session_is_owner: self.ours,
        }
    }

    /// Enables the clipboard on a fresh session.
    fn enable(&mut self) {
        self.phase = SessionPhase::Enabling;
        self.over = None;
        self.step(SessionEvent::Enabled);
    }

    fn step(&mut self, event: SessionEvent) {
        let mut event = Some(event);
        while let Some(e) = event.take() {
            let (phase, action) = self.clip.session_once(self.phase, e);
            self.phase = phase;
            event = match action {
                SessionAction::TakeAnnouncement => Some(SessionEvent::Announced(
                    self.content.is_some().then_some(self.change()),
                )),
                SessionAction::Read => Some(SessionEvent::Read(self.read(None).ok())),
                SessionAction::Notify(seen) => {
                    let gone = if self.listening {
                        self.seen.push(seen);
                        Vec::new()
                    } else {
                        self.clip.watchers().to_vec()
                    };
                    Some(SessionEvent::Notified(gone))
                }
                SessionAction::Stop(why) => {
                    self.over = Some(why);
                    None
                }
                SessionAction::Fail(why) => {
                    self.failed = Some(why);
                    None
                }
                SessionAction::Wait | SessionAction::Serve { .. } => None,
            };
        }
    }

    fn set_owner(&mut self, content: &[(&str, &[u8])]) {
        self.content = Some(pairs(content));
        self.ours = false;
        self.step(SessionEvent::OwnerChanged(self.change()));
    }

    fn read(&mut self, only: Option<&str>) -> Result<Offer, String> {
        match self.clip.read_offer(CLIPBOARD, only)? {
            ReadPlan::Own(o) => Ok(o),
            ReadPlan::NotConnected => Err("not connected".to_string()),
            ReadPlan::Types(types) => {
                let mut reader = OfferReader::new(types, 1024.min(self.limit()));
                while let Some((mime, _)) = reader.next() {
                    self.reads += 1;
                    let found = self.content.as_ref().and_then(|c| {
                        c.iter().find(|(m, _)| m == mime).map(|(_, d)| d.clone())
                    });
                    reader.got(found);
                }
                Ok(reader.finish().0)
            }
        }
    }

    fn limit(&self) -> usize {
        if self.content.as_ref().is_some_and(|c| c.iter().any(|(_, d)| d.len() == 100)) {
            40
        } else {
            1024
        }
    }

    /// Writes an offer, which the compositor takes unless `ok` is false.
    fn write(&mut self, o: Offer, ok: bool) -> Option<Vec<String>> {
        let content: Vec<(String, Vec<u8>)> =
            o.iter().map(|(m, d)| (m.clone(), d.clone())).collect();
        assert!(self.clip.can_write());
        match self.clip.write_offer(CLIPBOARD, Arc::new(o)).unwrap() {
            WriteStep::Nothing => None,
            WriteStep::NotConnected => panic!("there is a session"),
            WriteStep::Announce { types, ticket } => {
                self.clip.wrote(ticket, ok);
                if ok {
                    self.content = Some(content);
                    self.ours = true;
                    self.step(SessionEvent::OwnerChanged(self.change()));
                }
                Some(types)
            }
        }
    }

    /// What a paster gets.
    fn pull(&self, mime: &str) -> Option<Vec<u8>> {
        self.clip.serve_transfer(mime).ok().cloned()
    }
}

fn pairs(content: &[(&str, &[u8])]) -> Vec<(String, Vec<u8>)> {
    content
        .iter()
        .map(|(m, b)| (m.to_string(), b.to_vec()))
        .collect()
}

/// A backend with an enabled session.
fn start(max_payload: usize, seed: &[(&str, &[u8])]) -> Fake {
    let mut fake = Fake::new(max_payload, seed);
    fake.enable();
    fake
}

#[test]
fn initial_owner_is_reported_once_with_content_before_any_changed() {
    let mut fake = start(1024, &[("text/plain", b"restored")]);
    fake.set_owner(&[("text/plain", b"new")]);
    assert_eq!(
        fake.seen,
        [
            ClipboardEvent::Initial {
                kind: CLIPBOARD,
                offer: text_offer("restored")
            },
            changed()
        ]
    );
}

#[test]
fn empty_clipboard_at_subscribe_reports_nothing_and_a_change_is_changed() {
    let mut fake = start(1024, &[]);
    fake.set_owner(&[("text/plain", b"first copy")]);
    assert_eq!(fake.seen, [changed()], "no Initial for an empty clipboard");
}

#[test]
fn a_closed_session_reconnects_and_reports_its_find_as_changed() {
    let mut fake = start(1024, &[("text/plain", b"before")]);
    assert!(matches!(fake.seen[0], ClipboardEvent::Initial { .. }));
    fake.step(SessionEvent::Closed);
    assert_eq!(fake.over, Some(Stop::SessionClosed));
    assert!(fake.clip.attempt_finished(&[]), "somebody still listens");
    assert!(fake.read(None).is_err(), "there is no session to read from");
    fake.enable();
    // Found again after a blind spell it is a change, never restored content.
    assert_eq!(fake.seen[1..], [changed()]);
    assert_eq!(fake.read(None).unwrap(), text_offer("before"));
}

#[test]
fn a_failed_first_attempt_still_reports_initial_on_the_first_enable() {
    let mut fake = Fake::new(1024, &[("text/plain", b"restored")]);
    assert!(fake.clip.attempt_finished(&[]));
    fake.enable();
    assert!(matches!(fake.seen[0], ClipboardEvent::Initial { .. }));
}

#[test]
fn watcher_retires_when_the_engine_drops_the_receiver() {
    let mut fake = start(1024, &[]);
    fake.listening = false;
    fake.set_owner(&[("text/plain", b"x")]);
    assert_eq!(fake.over, Some(Stop::EngineGone));
    assert!(
        !fake.clip.attempt_finished(&[]),
        "the session was stopped, not reconnected"
    );
}

#[test]
fn a_failed_set_selection_keeps_the_offer_we_still_own() {
    let mut fake = start(1024, &[]);
    fake.write(text_offer("one"), true);
    fake.write(text_offer("two"), false);
    assert_eq!(
        fake.read(None).unwrap(),
        text_offer("one"),
        "the clipboard must not go blank on a transient write error"
    );
    assert_eq!(fake.pull("text/plain").as_deref(), Some(&b"one"[..]));
    assert_eq!(fake.reads, 0, "Mutter would refuse these anyway");
}

#[test]
fn a_later_watch_restarts_a_retired_session_task() {
    let mut fake = start(1024, &[]);
    let gone = fake.clip.watchers().to_vec();
    fake.step(SessionEvent::Closed);
    assert!(!fake.clip.attempt_finished(&gone), "nobody is left");
    assert!(fake.clip.can_watch());
    let (_, start) = fake.clip.watch();
    assert!(start, "a fresh subscriber must get a session of its own");
    let (_, again) = fake.clip.watch();
    assert!(!again, "one task serves all");
    fake.enable();
    fake.set_owner(&[("text/plain", b"y")]);
    assert_eq!(fake.seen, [changed()]);
}

#[test]
fn an_emptied_clipboard_is_a_change_with_nothing_to_read() {
    let mut fake = start(1024, &[("text/plain", b"x")]);
    let reads_before = fake.reads;
    fake.content = None;
    fake.step(SessionEvent::OwnerChanged(parse_owner_changed(None, None)));
    assert_eq!(fake.seen[1..], [changed()]);
    assert!(fake.clip.list_types(CLIPBOARD).unwrap().is_empty());
    assert!(fake.read(None).unwrap().is_empty());
    assert_eq!(fake.reads, reads_before, "nothing to read");
}

#[test]
fn list_types_is_the_last_advertised_list_minus_machinery_and_costs_no_read() {
    let mut fake = start(1024, &[]);
    fake.set_owner(&[
        ("TARGETS", b""),
        ("text/html", b"<b>"),
        ("text/plain", b"b"),
    ]);
    assert_eq!(
        fake.clip.list_types(CLIPBOARD).unwrap(),
        ["text/html", "text/plain"]
    );
    assert_eq!(fake.reads, 0);
}

#[test]
fn read_offer_reads_each_type_in_advertise_order_within_budget() {
    let mut fake = start(1024, &[]);
    fake.set_owner(&[("text/html", b"<b>x</b>"), ("text/plain", b"x")]);
    let o = fake.read(None).unwrap();
    assert_eq!(
        o.keys().map(String::as_str).collect::<Vec<_>>(),
        ["text/html", "text/plain"]
    );
    assert_eq!(o["text/html"], b"<b>x</b>");
    assert_eq!(fake.reads, 2);
}

#[test]
fn read_offer_only_narrows_to_one_selection_read() {
    let mut fake = start(1024, &[]);
    fake.set_owner(&[("text/html", b"<b>x</b>"), ("text/plain", b"x")]);
    let o = fake.read(Some("text/plain")).unwrap();
    assert_eq!(o.len(), 1);
    assert_eq!(o["text/plain"], b"x");
    assert_eq!(fake.reads, 1);
}

#[test]
fn over_budget_representation_is_skipped_and_the_rest_kept() {
    let mut fake = start(40, &[]);
    fake.set_owner(&[("image/png", &[0u8; 100]), ("text/plain", b"hi")]);
    let o = fake.read(None).unwrap();
    assert_eq!(
        o.keys().map(String::as_str).collect::<Vec<_>>(),
        ["text/plain"]
    );
}

#[test]
fn reads_while_owner_come_from_the_owned_offer() {
    let mut fake = start(1024, &[]);
    let ours = offer(&[("text/html", b"<i>x</i>"), ("text/plain", b"x")]);
    fake.write(ours.clone(), true);
    assert_eq!(fake.seen, [changed()], "our own write echoes as Changed");
    assert_eq!(fake.read(None).unwrap(), ours);
    assert_eq!(
        fake.read(Some("text/plain")).unwrap().keys().collect::<Vec<_>>(),
        ["text/plain"]
    );
    assert_eq!(
        fake.clip.list_types(CLIPBOARD).unwrap(),
        ["text/html", "text/plain"]
    );
    assert_eq!(fake.reads, 0, "Mutter would have refused these");
}

#[test]
fn selection_kind_is_an_error() {
    let mut fake = start(1024, &[]);
    let kind = SelectionKind::Selection;
    assert!(fake.clip.list_types(kind).is_err());
    assert!(fake.clip.read_offer(kind, None).is_err());
    let write = fake.clip.write_offer(kind, Arc::new(text_offer("x")));
    assert!(write.is_err());
}

#[test]
fn write_offer_sets_selection_with_keys_in_offer_order() {
    let mut fake = start(1024, &[]);
    let announced = fake.write(offer(&[("text/html", b"<b>"), ("text/plain", b"b")]), true);
    assert_eq!(fake.seen, [changed()]);
    assert_eq!(announced.unwrap(), ["text/html", "text/plain"]);
}

#[test]
fn empty_offer_is_a_no_op() {
    let mut fake = start(1024, &[]);
    assert!(fake.write(Offer::new(), true).is_none());
}

#[test]
fn a_transfer_is_served_byte_exact_and_an_unknown_mime_fails() {
    let mut fake = start(1024, &[]);
    fake.write(text_offer("served"), true);
    assert_eq!(fake.pull("text/plain").as_deref(), Some(&b"served"[..]));
    assert_eq!(fake.pull("image/png"), None);
    let (phase, action) = fake.clip.session_once(
        SessionPhase::Serving,
        SessionEvent::Transfer {
            mime: "text/plain".to_string(),
            serial: 4,
        },
    );
    assert_eq!(phase, SessionPhase::Serving);
    assert!(matches!(action, SessionAction::Serve { serial: 4, .. }));
}

#[test]
fn owned_is_replaced_by_the_next_write_and_useless_once_another_owner_appears() {
    let mut fake = start(1024, &[]);
    fake.write(text_offer("one"), true);
    fake.write(text_offer("two"), true);
    assert_eq!(fake.pull("text/plain").as_deref(), Some(&b"two"[..]));
    fake.set_owner(&[("text/plain", b"theirs")]);
    assert_eq!(fake.read(None).unwrap(), text_offer("theirs"));
}

#[test]
fn a_stalled_transfer_is_abandoned_before_mutters_cleanup() {
    assert!(!MutterClipboard::transfer_done(TransferEnd::TimedOut));
    assert!(!MutterClipboard::transfer_done(TransferEnd::Failed));
    assert!(MutterClipboard::transfer_done(TransferEnd::Served));
}

#[test]
fn a_lost_stream_fails_the_session() {
    for event in [
        SessionEvent::OwnerStreamEnded,
        SessionEvent::TransferStreamEnded,
    ] {
        let mut fake = start(1024, &[]);
        fake.step(event);
        assert!(fake.failed.unwrap().contains("stream ended"));
    }
}

#[test]
fn parses_types_and_the_owner_flag() {
    let change = parse_owner_changed(
        Some(vec!["text/html".to_string(), "text/plain".to_string()]),
        Some(true),
    );
    assert_eq!(change.types, ["text/html", "text/plain"]);
    assert!(change.session_is_owner);
}

#[test]
fn an_ownerless_change_has_neither_key() {
    // Mutter adds no keys at all when the owner is NULL; that must decode as
    // "nothing offered, not ours".
    let change = parse_owner_changed(None, None);
    assert_eq!(
        change,
        OwnerChange {
            types: vec![],
            session_is_owner: false
        }
    );
}

#[test]
fn a_first_connection_reports_content_and_a_later_one_a_change() {
    let kinds = [SelectionKind::Clipboard];
    let mut first = WatchState::new(&kinds, Connect::Subscribe);
    for kind in [SelectionKind::Clipboard, SelectionKind::Selection, SelectionKind::Clipboard] {
        assert!(matches!(
            first.watch_once(WatchEvent::Selection(kind)),
            WatchAction::Dispatch
        ));
    }
    assert!(matches!(
        first.watch_once(WatchEvent::BurstOver),
        WatchAction::Read(SelectionKind::Clipboard)
    ));
    match first.watch_once(WatchEvent::Read(Some(text_offer("old")))) {
        WatchAction::Send(e) => assert_eq!(
            e,
            ClipboardEvent::Initial {
                kind: CLIPBOARD,
                offer: text_offer("old")
            }
        ),
        _ => panic!("the content is reported"),
    }
    assert!(matches!(
        first.watch_once(WatchEvent::Sent(true)),
        WatchAction::Dispatch
    ));
    match first.watch_once(WatchEvent::Selection(CLIPBOARD)) {
        WatchAction::Send(e) => assert_eq!(e, changed()),
        _ => panic!("a change is reported"),
    }
    assert!(matches!(
        first.watch_once(WatchEvent::Sent(false)),
        WatchAction::Dispatch
    ));
    first.watch_once(WatchEvent::Finished);
    assert!(matches!(
        first.watch_once(WatchEvent::DispatchOver),
        WatchAction::Stop(StopReason::ReceiverGone)
    ));

    let mut later = WatchState::new(&kinds, Connect::Reconnect);
    later.watch_once(WatchEvent::Selection(CLIPBOARD));
    match later.watch_once(WatchEvent::BurstOver) {
        WatchAction::Send(e) => assert_eq!(e, changed()),
        _ => panic!("what was copied meanwhile is a change"),
    }
    later.watch_once(WatchEvent::Sent(true));
    assert!(matches!(
        later.watch_once(WatchEvent::DispatchOver),
        WatchAction::Dispatch
    ));
    assert!(matches!(
        later.watch_once(WatchEvent::Finished),
        WatchAction::Dispatch
    ));
    match later.watch_once(WatchEvent::Selection(CLIPBOARD)) {
        WatchAction::Send(e) => assert_eq!(e, changed()),
        _ => panic!("a change behind the end of the device is reported"),
    }
    later.watch_once(WatchEvent::Sent(true));
    assert!(matches!(
        later.watch_once(WatchEvent::DispatchOver),
        WatchAction::Stop(StopReason::Finished)
    ));
    assert!(watch_again(Some(StopReason::Finished), false));
    assert!(watch_again(None, false));
    assert!(!watch_again(Some(StopReason::ReceiverGone), false));
    assert!(!watch_again(None, true));
}

#[test]
fn a_failed_write_does_not_undo_a_later_one() {
    let mut fake = start(1024, &[]);
    let mut tickets = Vec::new();
    for text in ["one", "two"] {
        let offer = Arc::new(text_offer(text));
        match fake.clip.write_offer(CLIPBOARD, offer) {
            Ok(WriteStep::Announce { ticket, .. }) => tickets.push(ticket),
            _ => panic!("a connected clipboard announces a write"),
        }
    }
    fake.clip.wrote(tickets.remove(0), false);
    assert_eq!(fake.pull("text/plain").as_deref(), Some(&b"two"[..]));
    fake.clip.wrote(tickets.remove(0), true);
    assert_eq!(fake.pull("text/plain").as_deref(), Some(&b"two"[..]));
}
