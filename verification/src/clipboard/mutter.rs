//! The GNOME backend's decisions: who owns the clipboard, what a read is answered from,
//! what is served to a paster, and how long a session lives.

use crate::backoff::Nanos;
use crate::clipboard::atoms::{is_machinery, machinery};
use crate::clipboard::{keep_wanted, narrow, narrowed, pairs_opt, report_initial, startup_report};
use crate::clipboard::{wanted_types, ClipboardEvent, Connect, EventView};
use crate::offer::{bytes_of, clone_offer, offer_get, offer_len, offer_pairs, offer_types, types_of};
use crate::offer::{Offer, Pair};
use crate::protocol::SelectionKind;
use crate::text::{same, texts};
use std::sync::Arc;
use vstd::prelude::*;

verus! {

/// The user's session bus, where Mutter lives.
#[derive(Debug, Clone, Copy, PartialEq, Eq, Structural)]
pub struct SessionBus;

/// A change of the clipboard's owner, decoded.
#[derive(Debug, PartialEq, Eq)]
pub struct OwnerChange {
    /// The new owner's types in its advertise order. Empty when there is no owner.
    pub types: Vec<String>,
    /// Whether the new owner is this session's own source.
    pub session_is_owner: bool,
}

/// Decodes a change of owner: Mutter sends neither option when there is no owner.
pub fn parse_owner_changed(mime_types: Option<Vec<String>>, session_is_owner: Option<bool>) -> (r:
    OwnerChange)
    ensures
        texts(r.types@) == (match mime_types {
            Some(t) => texts(t@),
            None => Seq::empty(),
        }),
        r.session_is_owner == (session_is_owner == Some(true)),
{
    let types = match mime_types {
        Some(t) => t,
        None => Vec::new(),
    };
    proof {
        if mime_types is None {
            assert(texts(types@) =~= Seq::<Seq<char>>::empty());
        }
    }
    OwnerChange {
        types,
        session_is_owner: match session_is_owner {
            Some(b) => b,
            None => false,
        },
    }
}

/// Why a session ended.
#[derive(Debug, Clone, Copy, PartialEq, Eq, Structural)]
pub enum Stop {
    /// Every subscriber is gone (the sync engine exited).
    EngineGone,
    /// Mutter closed the session.
    SessionClosed,
}

/// How long one transfer may take, so that a paster which never drains its pipe is
/// given up.
pub const TRANSFER_TIMEOUT: Nanos = 10_000_000_000;

/// How serving a transfer ended.
#[derive(Debug, Clone, Copy, PartialEq, Eq, Structural)]
pub enum TransferEnd {
    /// The paster took everything.
    Served,
    /// It was a stale request, or writing failed.
    Failed,
    /// The paster did not take it in time.
    TimedOut,
}

/// How far a session has come.
#[derive(Debug, Clone, Copy, PartialEq, Eq, Structural)]
pub enum SessionPhase {
    /// The clipboard is being enabled.
    Enabling,
    /// The clipboard is enabled; the current owner, if any, is already queued.
    Enabled(Connect),
    /// The content found at startup is being read.
    Reading,
    /// An event is being handed to the subscribers.
    Notifying,
    /// The session waits for what happens next.
    Serving,
    /// The session is over.
    Over,
}

/// What happens on a session.
pub enum SessionEvent {
    /// The clipboard was enabled.
    Enabled,
    /// The owner that was queued when the clipboard was enabled.
    Announced(Option<OwnerChange>),
    /// What reading the content found at startup gave: `None` on error or timeout.
    Read(Option<Offer>),
    /// An event was handed out; these subscribers are gone.
    Notified(Vec<u64>),
    /// The clipboard has a new owner.
    OwnerChanged(OwnerChange),
    /// No more changes of owner will be announced.
    OwnerStreamEnded,
    /// A paster asks for a representation of our content.
    Transfer { mime: String, serial: u32 },
    /// No more transfers will be asked for.
    TransferStreamEnded,
    /// Mutter closed the session.
    Closed,
}

/// What a session does next.
pub enum SessionAction {
    /// Take the owner that is queued, if any.
    TakeAnnouncement,
    /// Read the content with [`MutterClipboard::read_offer`].
    Read,
    /// Hand this event to every subscriber.
    Notify(ClipboardEvent),
    /// Wait for what happens next.
    Wait,
    /// Serve this transfer with what [`MutterClipboard::serve_transfer`] gives, and wait.
    Serve { mime: String, serial: u32 },
    /// The session is over.
    Stop(Stop),
    /// The session failed.
    Fail(String),
}

/// What a session does next, over texts.
#[verifier::ext_equal]
pub enum ActionView {
    TakeAnnouncement,
    Read,
    Notify(EventView),
    Wait,
    Serve { mime: Seq<char>, serial: u32 },
    Stop(Stop),
    Fail(Seq<char>),
}

impl View for SessionAction {
    type V = ActionView;

    open spec fn view(&self) -> ActionView {
        match *self {
            SessionAction::TakeAnnouncement => ActionView::TakeAnnouncement,
            SessionAction::Read => ActionView::Read,
            SessionAction::Notify(e) => ActionView::Notify(e@),
            SessionAction::Wait => ActionView::Wait,
            SessionAction::Serve { mime, serial } => ActionView::Serve { mime: mime@, serial },
            SessionAction::Stop(why) => ActionView::Stop(why),
            SessionAction::Fail(why) => ActionView::Fail(why@),
        }
    }
}

/// Whether an event can happen in a phase.
pub open spec fn expects(phase: SessionPhase, event: SessionEvent) -> bool {
    match event {
        SessionEvent::Enabled => phase is Enabling,
        SessionEvent::Announced(_) => phase is Enabled,
        SessionEvent::Read(_) => phase is Reading,
        SessionEvent::Notified(_) => phase is Notifying,
        _ => phase is Serving,
    }
}

/// The change of the clipboard, as an event.
pub open spec fn changed() -> EventView {
    EventView::Changed(SelectionKind::Clipboard)
}

/// The next phase and action, given whether a session was enabled before and whether
/// anybody is still listening.
pub open spec fn session_next(
    phase: SessionPhase,
    event: SessionEvent,
    subscribed: bool,
    listening: bool,
) -> (SessionPhase, ActionView) {
    match event {
        SessionEvent::Enabled => (
            SessionPhase::Enabled(
                if subscribed {
                    Connect::Reconnect
                } else {
                    Connect::Subscribe
                },
            ),
            ActionView::TakeAnnouncement,
        ),
        SessionEvent::Announced(None) => (SessionPhase::Serving, ActionView::Wait),
        SessionEvent::Announced(Some(_)) => if phase == SessionPhase::Enabled(Connect::Reconnect) {
            (SessionPhase::Notifying, ActionView::Notify(changed()))
        } else {
            (SessionPhase::Reading, ActionView::Read)
        },
        SessionEvent::Read(read) => match startup_report(
            SelectionKind::Clipboard,
            pairs_opt(read),
        ) {
            Some(e) => (SessionPhase::Notifying, ActionView::Notify(e)),
            None => (SessionPhase::Serving, ActionView::Wait),
        },
        SessionEvent::Notified(_) => if listening {
            (SessionPhase::Serving, ActionView::Wait)
        } else {
            (SessionPhase::Over, ActionView::Stop(Stop::EngineGone))
        },
        SessionEvent::OwnerChanged(_) => (SessionPhase::Notifying, ActionView::Notify(changed())),
        SessionEvent::OwnerStreamEnded => (
            SessionPhase::Over,
            ActionView::Fail("the SelectionOwnerChanged stream ended (bus connection lost?)"@),
        ),
        SessionEvent::Transfer { mime, serial } => (
            SessionPhase::Serving,
            ActionView::Serve { mime: mime@, serial },
        ),
        SessionEvent::TransferStreamEnded => (
            SessionPhase::Over,
            ActionView::Fail("the SelectionTransfer stream ended (bus connection lost?)"@),
        ),
        SessionEvent::Closed => (SessionPhase::Over, ActionView::Stop(Stop::SessionClosed)),
    }
}

/// What a read is answered from.
pub enum ReadPlan {
    /// Our own content.
    Own(Offer),
    /// These types are to be read from Mutter, one at a time and within the budget.
    Types(Vec<String>),
    /// There is no session to read from.
    NotConnected,
}

/// What a write does next.
pub enum WriteStep {
    /// There is nothing to write.
    Nothing,
    /// There is no session to write to.
    NotConnected,
    /// Announce these types; the outcome goes to [`MutterClipboard::wrote`].
    Announce { types: Vec<String>, ticket: WriteTicket },
}

/// What was owned before a write, to be put back if it fails.
pub struct WriteTicket {
    serial: u64,
    previous: Option<Arc<Offer>>,
    previous_serial: u64,
}

/// The content of an optional offer.
pub open spec fn content_of(o: Option<Arc<Offer>>) -> Option<Seq<Pair>> {
    match o {
        Some(o) => Some(offer_pairs(*o)),
        None => None,
    }
}

impl WriteTicket {
    /// What was owned before.
    pub closed spec fn before(&self) -> Option<Seq<Pair>> {
        content_of(self.previous)
    }

    /// The number of the write.
    pub closed spec fn number(&self) -> u64 {
        self.serial
    }
}

/// Clipboard over Mutter's remote-desktop clipboard API.
pub struct MutterClipboard {
    max_payload: usize,
    /// Whether there is an enabled session.
    connected: bool,
    /// The types of the last change of owner, in advertise order.
    types: Vec<String>,
    /// Whether the last change of owner made this session the owner.
    is_owner: bool,
    /// What we last announced: served to transfers and to our own reads.
    owned: Option<Arc<Offer>>,
    /// The number of the write that `owned` comes from.
    owned_serial: u64,
    /// The number of the last write.
    writes: u64,
    /// Whether a session was enabled before.
    subscribed: bool,
    /// Who wants clipboard events.
    watchers: Vec<u64>,
    /// The number of the last subscriber.
    watches: u64,
    /// Whether a session task is serving the subscribers.
    task_running: bool,
}

/// `types` without machinery.
pub open spec fn without_machinery(types: Seq<Seq<char>>) -> Seq<Seq<char>>
    decreases types.len(),
{
    if types.len() == 0 {
        Seq::empty()
    } else if machinery(types.last()) {
        without_machinery(types.drop_last())
    } else {
        without_machinery(types.drop_last()).push(types.last())
    }
}

/// `types` with each run of equal neighbours as one.
pub open spec fn deduped(types: Seq<Seq<char>>) -> Seq<Seq<char>>
    decreases types.len(),
{
    if types.len() == 0 {
        Seq::empty()
    } else {
        let rest = deduped(types.drop_last());
        if rest.len() > 0 && rest.last() == types.last() {
            rest
        } else {
            rest.push(types.last())
        }
    }
}

/// The subscribers that are left when those in `gone` are gone.
pub open spec fn left_of(watchers: Seq<u64>, gone: Seq<u64>) -> Seq<u64>
    decreases watchers.len(),
{
    if watchers.len() == 0 {
        Seq::empty()
    } else if gone.contains(watchers.last()) {
        left_of(watchers.drop_last(), gone)
    } else {
        left_of(watchers.drop_last(), gone).push(watchers.last())
    }
}

/// What is said of a selection that Mutter does not reach.
pub open spec fn unsupported_text(kind: SelectionKind) -> Seq<char> {
    match kind {
        SelectionKind::Clipboard =>
            "the Clipboard selection is not available through Mutter's clipboard API (GNOME exposes only CLIPBOARD)"@,
        SelectionKind::Selection =>
            "the Selection selection is not available through Mutter's clipboard API (GNOME exposes only CLIPBOARD)"@,
    }
}

/// What is said of a selection that Mutter does not reach.
pub fn unsupported(kind: SelectionKind) -> (r: String)
    ensures
        r@ == unsupported_text(kind),
{
    match kind {
        SelectionKind::Clipboard =>
            "the Clipboard selection is not available through Mutter's clipboard API (GNOME exposes only CLIPBOARD)".to_string(),
        SelectionKind::Selection =>
            "the Selection selection is not available through Mutter's clipboard API (GNOME exposes only CLIPBOARD)".to_string(),
    }
}

/// Whether `n` is one of `list`.
fn contains_number(list: &[u64], n: u64) -> (r: bool)
    ensures
        r == list@.contains(n),
{
    let mut i: usize = 0;
    while i < list.len()
        invariant
            i <= list@.len(),
            forall|k: int| 0 <= k < i ==> list@[k] != n,
        decreases list@.len() - i,
    {
        if list[i] == n {
            return true;
        }
        i += 1;
    }
    false
}

impl MutterClipboard {
    /// The most bytes of an offer.
    pub closed spec fn limit(&self) -> usize {
        self.max_payload
    }

    /// Whether there is an enabled session.
    pub closed spec fn has_session(&self) -> bool {
        self.connected
    }

    /// The types of the last change of owner.
    pub closed spec fn announced(&self) -> Seq<Seq<char>> {
        texts(self.types@)
    }

    /// Whether the last change of owner made this session the owner.
    pub closed spec fn owns(&self) -> bool {
        self.is_owner
    }

    /// What was last announced as our own content.
    pub closed spec fn held(&self) -> Option<Seq<Pair>> {
        content_of(self.owned)
    }

    /// Our own content, when the session is the owner.
    pub open spec fn own_content(&self) -> Option<Seq<Pair>> {
        if self.owns() {
            self.held()
        } else {
            None
        }
    }

    /// The number of the write that the own content comes from.
    pub closed spec fn held_number(&self) -> u64 {
        self.owned_serial
    }

    /// The number of the last write.
    pub closed spec fn last_number(&self) -> u64 {
        self.writes
    }

    /// Whether a session was enabled before.
    pub closed spec fn was_subscribed(&self) -> bool {
        self.subscribed
    }

    /// Who wants clipboard events.
    pub closed spec fn subscribers(&self) -> Seq<u64> {
        self.watchers@
    }

    /// Whether a session task is serving the subscribers.
    pub closed spec fn is_served(&self) -> bool {
        self.task_running
    }

    /// The number of the last subscriber.
    pub closed spec fn watch_number(&self) -> u64 {
        self.watches
    }

    /// A subscriber is always served by a task, its number was handed out, and the own
    /// content comes from a write that was made.
    pub open spec fn wf(&self) -> bool {
        &&& self.subscribers().len() > 0 ==> self.is_served()
        &&& forall|i: int|
            0 <= i < self.subscribers().len() ==> (#[trigger] self.subscribers()[i])
                <= self.watch_number()
        &&& self.held_number() <= self.last_number()
    }

    /// Whether the clipboard content and its owner are those of `other`.
    pub open spec fn same_content(&self, other: MutterClipboard) -> bool {
        &&& self.limit() == other.limit()
        &&& self.announced() == other.announced()
        &&& self.owns() == other.owns()
        &&& self.held() == other.held()
        &&& self.held_number() == other.held_number()
        &&& self.last_number() == other.last_number()
    }

    /// Whether the subscribers and the session are those of `other`.
    pub open spec fn same_session(&self, other: MutterClipboard) -> bool {
        &&& self.has_session() == other.has_session()
        &&& self.was_subscribed() == other.was_subscribed()
        &&& self.subscribers() == other.subscribers()
        &&& self.watch_number() == other.watch_number()
        &&& self.is_served() == other.is_served()
    }

    /// A clipboard whose offers hold at most `max_payload` bytes.
    pub fn new(max_payload: usize) -> (r: MutterClipboard)
        ensures
            r.wf(),
            r.limit() == max_payload,
            !r.has_session(),
            r.announced() == Seq::<Seq<char>>::empty(),
            !r.owns(),
            r.held() is None,
            !r.was_subscribed(),
            r.subscribers() == Seq::<u64>::empty(),
            !r.is_served(),
            r.watch_number() == 0,
            r.last_number() == 0,
    {
        let r = MutterClipboard {
            max_payload,
            connected: false,
            types: Vec::new(),
            is_owner: false,
            owned: None,
            owned_serial: 0,
            writes: 0,
            subscribed: false,
            watchers: Vec::new(),
            watches: 0,
            task_running: false,
        };
        proof {
            assert(r.announced() =~= Seq::<Seq<char>>::empty());
        }
        r
    }

    /// Adds a subscriber. Returns its number, which no other subscriber has, and whether a
    /// session task is to be started: exactly when none is running.
    pub fn watch(&mut self) -> (r: (u64, bool))
        requires
            old(self).wf(),
            old(self).watch_number() < u64::MAX,
        ensures
            final(self).wf(),
            final(self).watch_number() == r.0,
            r.0 == old(self).watch_number() + 1,
            !old(self).subscribers().contains(r.0),
            final(self).same_content(*old(self)),
            final(self).subscribers() == old(self).subscribers().push(r.0),
            final(self).is_served(),
            r.1 == !old(self).is_served(),
            final(self).has_session() == old(self).has_session(),
            final(self).was_subscribed() == old(self).was_subscribed(),
    {
        self.watches = self.watches + 1;
        self.watchers.push(self.watches);
        let start = !self.task_running;
        self.task_running = true;
        (self.watches, start)
    }

    /// Drops the subscribers in `gone`.
    fn drop_watchers(&mut self, gone: &[u64])
        ensures
            final(self).watch_number() == old(self).watch_number(),
            final(self).same_content(*old(self)),
            final(self).subscribers() == left_of(old(self).subscribers(), gone@),
            final(self).is_served() == old(self).is_served(),
            final(self).has_session() == old(self).has_session(),
            final(self).was_subscribed() == old(self).was_subscribed(),
    {
        let mut left: Vec<u64> = Vec::new();
        let ghost all = self.watchers@;
        let mut i: usize = 0;
        proof {
            assert(all.take(0) =~= Seq::<u64>::empty());
        }
        while i < self.watchers.len()
            invariant
                i <= self.watchers@.len(),
                all == self.watchers@,
                left@ == left_of(all.take(i as int), gone@),
            decreases self.watchers@.len() - i,
        {
            proof {
                assert(all.take(i + 1).drop_last() =~= all.take(i as int));
            }
            if !contains_number(gone, self.watchers[i]) {
                left.push(self.watchers[i]);
            }
            i += 1;
        }
        proof {
            assert(all.take(all.len() as int) =~= all);
        }
        self.watchers = left;
    }

    /// Takes which subscribers an event could not be handed to. Returns whether anybody is
    /// still listening; if not, the session is to be stopped.
    pub fn notified(&mut self, gone: &[u64]) -> (listening: bool)
        requires
            old(self).wf(),
        ensures
            final(self).wf(),
            final(self).watch_number() == old(self).watch_number(),
            final(self).same_content(*old(self)),
            final(self).subscribers() == left_of(old(self).subscribers(), gone@),
            final(self).is_served() == old(self).is_served(),
            final(self).has_session() == old(self).has_session(),
            final(self).was_subscribed() == old(self).was_subscribed(),
            listening == (final(self).subscribers().len() > 0),
    {
        proof {
            lemma_left_of(self.subscribers(), gone@);
        }
        self.drop_watchers(gone);
        self.watchers.len() > 0
    }

    /// End of one session attempt: drops the subscribers that are gone and decides whether
    /// the task goes on. The task retires exactly when no subscriber is left.
    pub fn attempt_finished(&mut self, gone: &[u64]) -> (go_on: bool)
        requires
            old(self).wf(),
        ensures
            final(self).wf(),
            final(self).watch_number() == old(self).watch_number(),
            final(self).same_content(*old(self)),
            final(self).subscribers() == left_of(old(self).subscribers(), gone@),
            !final(self).has_session(),
            final(self).was_subscribed() == old(self).was_subscribed(),
            go_on == (final(self).subscribers().len() > 0),
            final(self).is_served() == (go_on && old(self).is_served()),
    {
        proof {
            lemma_left_of(self.subscribers(), gone@);
        }
        self.connected = false;
        self.drop_watchers(gone);
        if self.watchers.len() == 0 {
            self.task_running = false;
            return false;
        }
        true
    }

    /// The clipboard was enabled on a session. Only the first time is a subscribe: what a
    /// later session finds was possibly copied while we were blind.
    pub fn session_enabled(&mut self) -> (r: Connect)
        requires
            old(self).wf(),
        ensures
            final(self).wf(),
            final(self).watch_number() == old(self).watch_number(),
            final(self).same_content(*old(self)),
            final(self).has_session(),
            final(self).was_subscribed(),
            final(self).subscribers() == old(self).subscribers(),
            final(self).is_served() == old(self).is_served(),
            r == (if old(self).was_subscribed() {
                Connect::Reconnect
            } else {
                Connect::Subscribe
            }),
    {
        let again = self.subscribed;
        self.subscribed = true;
        self.connected = true;
        assert(self.subscribers() == old(self).subscribers());
        if again {
            Connect::Reconnect
        } else {
            Connect::Subscribe
        }
    }

    /// Takes a change of owner. The own content is not cleared when someone else takes
    /// over: only the next write replaces it.
    pub fn apply(&mut self, change: OwnerChange)
        requires
            old(self).wf(),
        ensures
            final(self).wf(),
            final(self).same_session(*old(self)),
            final(self).limit() == old(self).limit(),
            final(self).announced() == texts(change.types@),
            final(self).owns() == change.session_is_owner,
            final(self).held() == old(self).held(),
            final(self).held_number() == old(self).held_number(),
            final(self).last_number() == old(self).last_number(),
    {
        self.types = change.types;
        self.is_owner = change.session_is_owner;
        assert(self.subscribers() == old(self).subscribers());
    }

    /// One step of a session: takes what happened and says what to do next.
    pub fn session_once(&mut self, phase: SessionPhase, event: SessionEvent) -> (r: (
        SessionPhase,
        SessionAction,
    ))
        requires
            old(self).wf(),
            expects(phase, event),
        ensures
            final(self).wf(),
            (r.0, r.1@) == session_next(
                phase,
                event,
                old(self).was_subscribed(),
                final(self).subscribers().len() > 0,
            ),
            final(self).limit() == old(self).limit(),
            final(self).held() == old(self).held(),
            final(self).held_number() == old(self).held_number(),
            final(self).last_number() == old(self).last_number(),
            final(self).is_served() == old(self).is_served(),
            final(self).watch_number() == old(self).watch_number(),
            final(self).has_session() == (old(self).has_session() || event is Enabled),
            final(self).was_subscribed() == (old(self).was_subscribed() || event is Enabled),
            match event {
                SessionEvent::Announced(Some(change)) | SessionEvent::OwnerChanged(change) => {
                    &&& final(self).announced() == texts(change.types@)
                    &&& final(self).owns() == change.session_is_owner
                },
                _ => {
                    &&& final(self).announced() == old(self).announced()
                    &&& final(self).owns() == old(self).owns()
                },
            },
            final(self).subscribers() == (match event {
                SessionEvent::Notified(gone) => left_of(old(self).subscribers(), gone@),
                _ => old(self).subscribers(),
            }),
    {
        match event {
            SessionEvent::Enabled => {
                let connect = self.session_enabled();
                (SessionPhase::Enabled(connect), SessionAction::TakeAnnouncement)
            },
            SessionEvent::Announced(None) => (SessionPhase::Serving, SessionAction::Wait),
            SessionEvent::Announced(Some(change)) => {
                self.apply(change);
                match phase {
                    SessionPhase::Enabled(Connect::Reconnect) => (
                        SessionPhase::Notifying,
                        SessionAction::Notify(ClipboardEvent::Changed(SelectionKind::Clipboard)),
                    ),
                    _ => (SessionPhase::Reading, SessionAction::Read),
                }
            },
            SessionEvent::Read(read) => {
                match report_initial(SelectionKind::Clipboard, read) {
                    Some(e) => (SessionPhase::Notifying, SessionAction::Notify(e)),
                    None => (SessionPhase::Serving, SessionAction::Wait),
                }
            },
            SessionEvent::Notified(gone) => {
                if self.notified(gone.as_slice()) {
                    (SessionPhase::Serving, SessionAction::Wait)
                } else {
                    (SessionPhase::Over, SessionAction::Stop(Stop::EngineGone))
                }
            },
            SessionEvent::OwnerChanged(change) => {
                self.apply(change);
                (
                    SessionPhase::Notifying,
                    SessionAction::Notify(ClipboardEvent::Changed(SelectionKind::Clipboard)),
                )
            },
            SessionEvent::OwnerStreamEnded => (
                SessionPhase::Over,
                SessionAction::Fail(
                    "the SelectionOwnerChanged stream ended (bus connection lost?)".to_string(),
                ),
            ),
            SessionEvent::Transfer { mime, serial } => (
                SessionPhase::Serving,
                SessionAction::Serve { mime, serial },
            ),
            SessionEvent::TransferStreamEnded => (
                SessionPhase::Over,
                SessionAction::Fail(
                    "the SelectionTransfer stream ended (bus connection lost?)".to_string(),
                ),
            ),
            SessionEvent::Closed => (SessionPhase::Over, SessionAction::Stop(Stop::SessionClosed)),
        }
    }

    /// The bytes to serve a transfer with: a representation of what was last announced. A
    /// stale request is for one that is not part of it.
    pub fn serve_transfer(&self, mime: &str) -> (r: Result<&Vec<u8>, String>)
        ensures
            match r {
                Ok(data) => self.held() is Some && bytes_of(self.held()->0, mime@) == Some(data@),
                Err(e) => {
                    &&& self.held() is None || bytes_of(self.held()->0, mime@) is None
                    &&& e@ == mime@ + " is not part of the content we own (a stale request)"@
                },
            },
    {
        if let Some(offer) = &self.owned {
            if let Some(data) = offer_get(offer, mime) {
                return Ok(data);
            }
        }
        let mut e = mime.to_string();
        e.append(" is not part of the content we own (a stale request)");
        Err(e)
    }

    /// Whether a transfer succeeded, which Mutter is told.
    pub fn transfer_done(end: TransferEnd) -> (r: bool)
        ensures
            r == (end == TransferEnd::Served),
    {
        match end {
            TransferEnd::Served => true,
            _ => false,
        }
    }

    /// The types that the clipboard offers: of our own content while we are the owner, else
    /// those announced, without machinery and repetitions.
    pub fn list_types(&self, kind: SelectionKind) -> (r: Result<Vec<String>, String>)
        ensures
            match r {
                Ok(types) => {
                    &&& kind == SelectionKind::Clipboard
                    &&& texts(types@) == (match self.own_content() {
                        Some(pairs) => types_of(pairs),
                        None => deduped(without_machinery(self.announced())),
                    })
                },
                Err(e) => kind != SelectionKind::Clipboard && e@ == unsupported_text(kind),
            },
    {
        if kind != SelectionKind::Clipboard {
            return Err(unsupported(kind));
        }
        if self.is_owner {
            if let Some(offer) = &self.owned {
                return Ok(offer_types(offer));
            }
        }
        let ghost all = texts(self.types@);
        let mut kept: Vec<String> = Vec::new();
        let mut i: usize = 0;
        proof {
            assert(all.take(0) =~= Seq::<Seq<char>>::empty());
            assert(texts(kept@) =~= Seq::<Seq<char>>::empty());
        }
        while i < self.types.len()
            invariant
                i <= self.types@.len(),
                all == texts(self.types@),
                texts(kept@) == deduped(without_machinery(all.take(i as int))),
            decreases self.types@.len() - i,
        {
            let mime = &self.types[i];
            let ghost was = kept@;
            proof {
                assert(all.take(i + 1).drop_last() =~= all.take(i as int));
                assert(all.take(i + 1).last() == mime@);
                let rest = without_machinery(all.take(i as int));
                assert(rest.push(mime@).drop_last() =~= rest);
            }
            if !is_machinery(mime.as_str()) {
                let repeated = kept.len() > 0 && same(kept[kept.len() - 1].as_str(), mime.as_str());
                proof {
                    if kept@.len() > 0 {
                        assert(texts(kept@).last() == kept@[kept@.len() - 1]@);
                    }
                }
                if !repeated {
                    kept.push(mime.clone());
                    proof {
                        assert(texts(kept@) =~= texts(was).push(mime@));
                    }
                }
            }
            i += 1;
        }
        proof {
            assert(all.take(all.len() as int) =~= all);
        }
        Ok(kept)
    }

    /// What a read is answered from: our own content while we are the owner, else the types
    /// announced; in either case only what satisfies `only`.
    pub fn read_offer(&self, kind: SelectionKind, only: Option<&str>) -> (r: Result<
        ReadPlan,
        String,
    >)
        ensures
            match r {
                Err(e) => kind != SelectionKind::Clipboard && e@ == unsupported_text(kind),
                Ok(plan) => {
                    &&& kind == SelectionKind::Clipboard
                    &&& match self.own_content() {
                        Some(pairs) => plan matches ReadPlan::Own(o) && offer_pairs(o) == (
                        match only {
                            Some(want) => narrowed(pairs, want@),
                            None => pairs,
                        }),
                        None => if self.has_session() {
                            plan matches ReadPlan::Types(types) && texts(types@) == wanted_types(
                                self.announced(),
                                match only {
                                    Some(want) => Some(want@),
                                    None => None,
                                },
                            )
                        } else {
                            plan is NotConnected
                        },
                    }
                },
            },
    {
        if kind != SelectionKind::Clipboard {
            return Err(unsupported(kind));
        }
        if self.is_owner {
            if let Some(offer) = &self.owned {
                return Ok(
                    ReadPlan::Own(
                        match only {
                            Some(want) => narrow(offer, want),
                            None => clone_offer(offer),
                        },
                    ),
                );
            }
        }
        if !self.connected {
            return Ok(ReadPlan::NotConnected);
        }
        Ok(ReadPlan::Types(keep_wanted(self.types.as_slice(), only)))
    }

    /// Whether another write can be numbered.
    pub fn can_write(&self) -> (r: bool)
        ensures
            r == (self.last_number() < u64::MAX),
    {
        self.writes < u64::MAX
    }

    /// Whether another subscriber can be numbered.
    pub fn can_watch(&self) -> (r: bool)
        ensures
            r == (self.watch_number() < u64::MAX),
    {
        self.watches < u64::MAX
    }

    /// Who wants clipboard events.
    pub fn watchers(&self) -> (r: &[u64])
        ensures
            r@ == self.subscribers(),
    {
        self.watchers.as_slice()
    }

    /// Starts a write. The offer is held before it is announced: it can be asked for the
    /// moment the owner changes.
    pub fn write_offer(&mut self, kind: SelectionKind, offer: Arc<Offer>) -> (r: Result<
        WriteStep,
        String,
    >)
        requires
            old(self).wf(),
            old(self).last_number() < u64::MAX,
        ensures
            final(self).wf(),
            final(self).same_session(*old(self)),
            match r {
                Err(e) => kind != SelectionKind::Clipboard && e@ == unsupported_text(kind)
                    && *final(self) == *old(self),
                Ok(step) => {
                    &&& kind == SelectionKind::Clipboard
                    &&& match step {
                        WriteStep::Nothing => offer_pairs(*offer).len() == 0 && *final(self)
                            == *old(self),
                        WriteStep::NotConnected => offer_pairs(*offer).len() > 0
                            && !old(self).has_session() && *final(self) == *old(self),
                        WriteStep::Announce { types, ticket } => {
                            &&& offer_pairs(*offer).len() > 0
                            &&& old(self).has_session()
                            &&& texts(types@) == types_of(offer_pairs(*offer))
                            &&& write_began(
                                *old(self),
                                *final(self),
                                offer_pairs(*offer),
                                ticket,
                            )
                        },
                    }
                },
            },
    {
        if kind != SelectionKind::Clipboard {
            return Err(unsupported(kind));
        }
        if offer_len(&offer) == 0 {
            return Ok(WriteStep::Nothing);
        }
        if !self.connected {
            return Ok(WriteStep::NotConnected);
        }
        let types = offer_types(&offer);
        let previous_serial: u64 = self.owned_serial;
        let previous = self.owned.take();
        self.writes = self.writes + 1;
        self.owned = Some(offer);
        self.owned_serial = self.writes;
        assert(self.subscribers() == old(self).subscribers());
        Ok(
            WriteStep::Announce {
                types,
                ticket: WriteTicket { serial: self.writes, previous, previous_serial },
            },
        )
    }

    /// Takes the outcome of a write. A write that failed changed nothing about the owner, so
    /// what was held before is put back, unless a later write has replaced it.
    pub fn wrote(&mut self, ticket: WriteTicket, ok: bool)
        requires
            old(self).wf(),
            ticket.before_number() <= old(self).last_number(),
        ensures
            final(self).wf(),
            final(self).same_session(*old(self)),
            write_ended(*old(self), *final(self), ticket, ok),
    {
        if !ok && self.owned_serial == ticket.serial {
            self.owned = ticket.previous;
            self.owned_serial = ticket.previous_serial;
        }
        assert(self.subscribers() == old(self).subscribers());
    }
}

impl WriteTicket {
    /// The number of the write that was held before.
    pub closed spec fn before_number(&self) -> u64 {
        self.previous_serial
    }
}

/// Whether a write of `pairs` took the clipboard from `a` to `b`: they are held under a new
/// number, and the ticket holds what was held before.
pub open spec fn write_began(
    a: MutterClipboard,
    b: MutterClipboard,
    pairs: Seq<Pair>,
    ticket: WriteTicket,
) -> bool {
    &&& b.held() == Some(pairs)
    &&& b.held_number() == ticket.number()
    &&& ticket.number() == a.last_number() + 1
    &&& b.last_number() == ticket.number()
    &&& ticket.before() == a.held()
    &&& ticket.before_number() == a.held_number()
    &&& b.announced() == a.announced()
    &&& b.owns() == a.owns()
    &&& b.limit() == a.limit()
}

/// Whether the outcome of a write took the clipboard from `a` to `b`: one that failed puts
/// back what the ticket holds, unless something else is held by now.
pub open spec fn write_ended(
    a: MutterClipboard,
    b: MutterClipboard,
    ticket: WriteTicket,
    ok: bool,
) -> bool {
    &&& b.announced() == a.announced()
    &&& b.owns() == a.owns()
    &&& b.limit() == a.limit()
    &&& b.last_number() == a.last_number()
    &&& if !ok && a.held_number() == ticket.number() {
        &&& b.held() == ticket.before()
        &&& b.held_number() == ticket.before_number()
    } else {
        b == a
    }
}

/// What was written is what our own reads and every paster get, once the session is the
/// owner.
pub proof fn a_write_is_read_back(
    a: MutterClipboard,
    b: MutterClipboard,
    c: MutterClipboard,
    pairs: Seq<Pair>,
    ticket: WriteTicket,
)
    requires
        write_began(a, b, pairs, ticket),
        write_ended(b, c, ticket, true),
    ensures
        c.held() == Some(pairs),
        c.owns() ==> c.own_content() == Some(pairs),
{
}

/// A write that fails leaves what was held before: the clipboard goes on serving it.
pub proof fn a_failed_write_changes_nothing(
    a: MutterClipboard,
    b: MutterClipboard,
    c: MutterClipboard,
    pairs: Seq<Pair>,
    ticket: WriteTicket,
)
    requires
        write_began(a, b, pairs, ticket),
        write_ended(b, c, ticket, false),
    ensures
        c.held() == a.held(),
        c.held_number() == a.held_number(),
        c.own_content() == a.own_content(),
        c.announced() == a.announced(),
{
}

/// A write that fails does not undo one that came after it.
pub proof fn a_failed_write_undoes_no_later_one(
    a: MutterClipboard,
    b: MutterClipboard,
    c: MutterClipboard,
    d: MutterClipboard,
    first: (Seq<Pair>, WriteTicket),
    second: (Seq<Pair>, WriteTicket),
)
    requires
        write_began(a, b, first.0, first.1),
        write_began(b, c, second.0, second.1),
        write_ended(c, d, first.1, false),
    ensures
        d.held() == Some(second.0),
        d.held_number() == second.1.number(),
{
}

proof fn lemma_left_of(watchers: Seq<u64>, gone: Seq<u64>)
    ensures
        left_of(watchers, gone).len() <= watchers.len(),
        forall|i: int|
            0 <= i < left_of(watchers, gone).len() ==> watchers.contains(
                #[trigger] left_of(watchers, gone)[i],
            ),
    decreases watchers.len(),
{
    assert forall|i: int| 0 <= i < left_of(watchers, gone).len() implies watchers.contains(
        #[trigger] left_of(watchers, gone)[i],
    ) by {
        only_those_gone_are_dropped(watchers, gone, left_of(watchers, gone)[i]);
    }
    if watchers.len() > 0 {
        lemma_left_of(watchers.drop_last(), gone);
    }
}

/// Content that a session finds is reported as initial only by the first session that
/// was ever enabled: a later one reports a change.
pub proof fn only_the_first_session_reports_initial_content(
    event: SessionEvent,
    change: OwnerChange,
    listening: bool,
)
    requires
        event is Enabled,
    ensures
        session_next(SessionPhase::Enabling, event, true, listening).0 == SessionPhase::Enabled(
            Connect::Reconnect,
        ),
        session_next(
            SessionPhase::Enabled(Connect::Reconnect),
            SessionEvent::Announced(Some(change)),
            true,
            listening,
        ) == (SessionPhase::Notifying, ActionView::Notify(changed())),
{
}

/// No subscriber that is still there is dropped, and none that is gone stays.
pub proof fn only_those_gone_are_dropped(watchers: Seq<u64>, gone: Seq<u64>, w: u64)
    ensures
        left_of(watchers, gone).contains(w) <==> watchers.contains(w) && !gone.contains(w),
    decreases watchers.len(),
{
    if watchers.len() > 0 {
        let rest = watchers.drop_last();
        only_those_gone_are_dropped(rest, gone, w);
        let left = left_of(rest, gone);
        if watchers.contains(w) {
            let i = choose|i: int| 0 <= i < watchers.len() && watchers[i] == w;
            if i < rest.len() {
                assert(rest[i] == w);
            }
        }
        if rest.contains(w) {
            let i = choose|i: int| 0 <= i < rest.len() && rest[i] == w;
            assert(watchers[i] == w);
        }
        assert(watchers[watchers.len() - 1] == watchers.last());
        if !gone.contains(watchers.last()) {
            let now = left.push(watchers.last());
            assert(now[left.len() as int] == watchers.last());
            if left.contains(w) {
                let i = choose|i: int| 0 <= i < left.len() && left[i] == w;
                assert(now[i] == w);
            }
            if now.contains(w) {
                let i = choose|i: int| 0 <= i < now.len() && now[i] == w;
                if i < left.len() {
                    assert(left[i] == w);
                }
            }
        }
    }
}

} // verus!
