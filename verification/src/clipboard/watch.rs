//! The data-control watcher: which selection events are reported, and as what.

use crate::clipboard::{pairs_opt, report_initial, startup_report, ClipboardEvent};
use crate::clipboard::{Connect, EventView};
use crate::offer::Offer;
use crate::protocol::SelectionKind;
use vstd::prelude::*;

verus! {

/// Why a watcher's connection ended.
#[derive(Debug, Clone, Copy, PartialEq, Eq, Structural)]
pub enum StopReason {
    /// The notification receiver was dropped (the sync engine exited).
    ReceiverGone,
    /// The compositor invalidated the data-control device.
    Finished,
}

/// How far a connection of the watcher has come.
#[derive(Debug, Clone, Copy, PartialEq, Eq, Structural)]
pub enum WatchPhase {
    /// The compositor's initial burst is being drained: what it reports is the existing
    /// clipboard, not a change.
    Draining,
    /// The selections that the burst reported are being reported.
    Reporting,
    /// Every selection event is a change.
    Dispatching,
    /// The connection is over.
    Over,
}

/// What happens on a connection of the watcher.
pub enum WatchEvent {
    /// The compositor reports a selection.
    Selection(SelectionKind),
    /// The compositor invalidated the device.
    Finished,
    /// The initial burst is over.
    BurstOver,
    /// Every event of one dispatch was taken.
    DispatchOver,
    /// What reading an existing selection gave: `None` on error or timeout.
    Read(Option<Offer>),
    /// Whether an event could be handed to the receiver.
    Sent(bool),
}

/// What a connection of the watcher does next.
pub enum WatchAction {
    /// Take the compositor's next event, or the end of the burst or the dispatch.
    Dispatch,
    /// Read this selection.
    Read(SelectionKind),
    /// Hand this event to the receiver.
    Send(ClipboardEvent),
    /// The connection is over.
    Stop(StopReason),
}

/// What a connection of the watcher does next, over representations.
#[verifier::ext_equal]
pub enum WatchActionView {
    Dispatch,
    Read(SelectionKind),
    Send(EventView),
    Stop(StopReason),
}

impl View for WatchAction {
    type V = WatchActionView;

    open spec fn view(&self) -> WatchActionView {
        match *self {
            WatchAction::Dispatch => WatchActionView::Dispatch,
            WatchAction::Read(kind) => WatchActionView::Read(kind),
            WatchAction::Send(e) => WatchActionView::Send(e@),
            WatchAction::Stop(why) => WatchActionView::Stop(why),
        }
    }
}

/// One connection of the watcher.
pub struct WatchState {
    clipboard: bool,
    selection: bool,
    connect: Connect,
    phase: WatchPhase,
    finished: bool,
    dead: bool,
    pending: Vec<SelectionKind>,
}

/// One connection of the watcher.
#[verifier::ext_equal]
pub struct WatchView {
    /// Whether the clipboard is watched.
    pub clipboard: bool,
    /// Whether the selection is watched.
    pub selection: bool,
    /// Whether it is the first connection.
    pub connect: Connect,
    pub phase: WatchPhase,
    /// Whether the compositor invalidated the device.
    pub finished: bool,
    /// Whether a change could not be handed to the receiver.
    pub dead: bool,
    /// The selections of the initial burst that were not reported yet.
    pub pending: Seq<SelectionKind>,
}

impl View for WatchState {
    type V = WatchView;

    closed spec fn view(&self) -> WatchView {
        WatchView {
            clipboard: self.clipboard,
            selection: self.selection,
            connect: self.connect,
            phase: self.phase,
            finished: self.finished,
            dead: self.dead,
            pending: self.pending@,
        }
    }
}

/// Whether a selection is watched.
pub open spec fn watched(v: WatchView, kind: SelectionKind) -> bool {
    match kind {
        SelectionKind::Clipboard => v.clipboard,
        SelectionKind::Selection => v.selection,
    }
}

/// Whether an event can happen in a phase. What is reported next has to be known when a
/// read is handed in.
pub open spec fn possible(v: WatchView, event: WatchEvent) -> bool {
    match event {
        WatchEvent::Selection(_) | WatchEvent::Finished => v.phase is Draining
            || v.phase is Dispatching,
        WatchEvent::BurstOver => v.phase is Draining,
        WatchEvent::DispatchOver => v.phase is Dispatching,
        WatchEvent::Read(_) => v.phase is Reporting && v.pending.len() > 0,
        WatchEvent::Sent(_) => v.phase is Reporting || v.phase is Dispatching,
    }
}

/// What a connection does when nothing is under way: it reports what the burst left, on
/// the first connection with its content, on a later one as a change; and then takes
/// events, until the receiver is gone or the device is invalid.
pub open spec fn going_on(v: WatchView) -> (WatchView, WatchActionView) {
    if v.phase is Reporting && v.pending.len() > 0 {
        match v.connect {
            Connect::Subscribe => (v, WatchActionView::Read(v.pending[0])),
            Connect::Reconnect => (
                WatchView { pending: v.pending.skip(1), ..v },
                WatchActionView::Send(EventView::Changed(v.pending[0])),
            ),
        }
    } else if v.dead {
        (
            WatchView { phase: WatchPhase::Over, ..v },
            WatchActionView::Stop(StopReason::ReceiverGone),
        )
    } else if v.finished {
        (
            WatchView { phase: WatchPhase::Over, ..v },
            WatchActionView::Stop(StopReason::Finished),
        )
    } else {
        (WatchView { phase: WatchPhase::Dispatching, ..v }, WatchActionView::Dispatch)
    }
}

/// What a connection does about an event. A selection that is not watched is ignored, and
/// the burst counts each selection once. A dispatch is taken to its end: that the device
/// is invalid, or that the receiver is gone, counts when all its events were taken.
pub open spec fn watch_next(v: WatchView, event: WatchEvent) -> (WatchView, WatchActionView) {
    match event {
        WatchEvent::Selection(kind) => if !watched(v, kind) {
            (v, WatchActionView::Dispatch)
        } else if v.phase is Draining {
            (
                if v.pending.contains(kind) {
                    v
                } else {
                    WatchView { pending: v.pending.push(kind), ..v }
                },
                WatchActionView::Dispatch,
            )
        } else {
            (v, WatchActionView::Send(EventView::Changed(kind)))
        },
        WatchEvent::Finished => (WatchView { finished: true, ..v }, WatchActionView::Dispatch),
        WatchEvent::BurstOver => going_on(WatchView { phase: WatchPhase::Reporting, ..v }),
        WatchEvent::DispatchOver => going_on(v),
        WatchEvent::Read(read) => {
            let left = WatchView { pending: v.pending.skip(1), ..v };
            match startup_report(v.pending[0], pairs_opt(read)) {
                Some(e) => (left, WatchActionView::Send(e)),
                None => going_on(left),
            }
        },
        WatchEvent::Sent(delivered) => if v.phase is Dispatching {
            (WatchView { dead: v.dead || !delivered, ..v }, WatchActionView::Dispatch)
        } else if delivered {
            going_on(v)
        } else {
            (
                WatchView { phase: WatchPhase::Over, ..v },
                WatchActionView::Stop(StopReason::ReceiverGone),
            )
        },
    }
}

impl WatchState {
    /// A connection that reports the selections in `kinds`.
    pub fn new(kinds: &[SelectionKind], connect: Connect) -> (r: WatchState)
        ensures
            r@.phase is Draining,
            r@.connect == connect,
            !r@.finished,
            !r@.dead,
            r@.pending == Seq::<SelectionKind>::empty(),
            forall|kind: SelectionKind| #[trigger] watched(r@, kind) == kinds@.contains(kind),
    {
        let mut clipboard = false;
        let mut selection = false;
        let mut i: usize = 0;
        while i < kinds.len()
            invariant
                i <= kinds@.len(),
                clipboard == exists|k: int|
                    0 <= k < i && #[trigger] kinds@[k] == SelectionKind::Clipboard,
                selection == exists|k: int|
                    0 <= k < i && #[trigger] kinds@[k] == SelectionKind::Selection,
            decreases kinds@.len() - i,
        {
            match kinds[i] {
                SelectionKind::Clipboard => {
                    clipboard = true;
                },
                SelectionKind::Selection => {
                    selection = true;
                },
            }
            i += 1;
        }
        WatchState {
            clipboard,
            selection,
            connect,
            phase: WatchPhase::Draining,
            finished: false,
            dead: false,
            pending: Vec::new(),
        }
    }

    fn go_on(&mut self) -> (r: WatchAction)
        ensures
            (final(self)@, r@) == going_on(old(self)@),
    {
        if self.phase == WatchPhase::Reporting && self.pending.len() > 0 {
            return match self.connect {
                Connect::Subscribe => WatchAction::Read(self.pending[0]),
                Connect::Reconnect => {
                    let ghost was = self.pending@;
                    let kind = self.pending.remove(0);
                    assert(self.pending@ =~= was.skip(1));
                    WatchAction::Send(ClipboardEvent::Changed(kind))
                },
            };
        }
        if self.dead {
            self.phase = WatchPhase::Over;
            return WatchAction::Stop(StopReason::ReceiverGone);
        }
        if self.finished {
            self.phase = WatchPhase::Over;
            return WatchAction::Stop(StopReason::Finished);
        }
        self.phase = WatchPhase::Dispatching;
        WatchAction::Dispatch
    }

    fn is_pending(&self, kind: SelectionKind) -> (r: bool)
        ensures
            r == self.pending@.contains(kind),
    {
        let mut i: usize = 0;
        while i < self.pending.len()
            invariant
                i <= self.pending@.len(),
                forall|k: int| 0 <= k < i ==> self.pending@[k] != kind,
            decreases self.pending@.len() - i,
        {
            if self.pending[i] == kind {
                return true;
            }
            i += 1;
        }
        false
    }

    fn notify(&mut self, kind: SelectionKind) -> (r: WatchAction)
        requires
            old(self)@.phase is Draining || old(self)@.phase is Dispatching,
        ensures
            (final(self)@, r@) == watch_next(old(self)@, WatchEvent::Selection(kind)),
    {
        let is_watched = match kind {
            SelectionKind::Clipboard => self.clipboard,
            SelectionKind::Selection => self.selection,
        };
        if !is_watched {
            return WatchAction::Dispatch;
        }
        if self.phase == WatchPhase::Draining {
            if !self.is_pending(kind) {
                self.pending.push(kind);
            }
            return WatchAction::Dispatch;
        }
        WatchAction::Send(ClipboardEvent::Changed(kind))
    }

    /// One step of a connection: takes what happened and says what to do next.
    pub fn watch_once(&mut self, event: WatchEvent) -> (r: WatchAction)
        requires
            possible(old(self)@, event),
        ensures
            (final(self)@, r@) == watch_next(old(self)@, event),
    {
        match event {
            WatchEvent::Selection(kind) => self.notify(kind),
            WatchEvent::Finished => {
                self.finished = true;
                WatchAction::Dispatch
            },
            WatchEvent::BurstOver => {
                self.phase = WatchPhase::Reporting;
                self.go_on()
            },
            WatchEvent::DispatchOver => self.go_on(),
            WatchEvent::Read(read) => {
                let ghost was = self.pending@;
                let kind = self.pending.remove(0);
                assert(self.pending@ =~= was.skip(1));
                match report_initial(kind, read) {
                    Some(e) => WatchAction::Send(e),
                    None => self.go_on(),
                }
            },
            WatchEvent::Sent(delivered) => {
                if self.phase == WatchPhase::Dispatching {
                    if !delivered {
                        self.dead = true;
                    }
                    return WatchAction::Dispatch;
                }
                if delivered {
                    return self.go_on();
                }
                self.phase = WatchPhase::Over;
                WatchAction::Stop(StopReason::ReceiverGone)
            },
        }
    }
}

/// Whether a supervised watcher is started again after a connection ended: not once
/// the receiver is gone.
pub fn watch_again(end: Option<StopReason>, receiver_closed: bool) -> (r: bool)
    ensures
        r == (end != Some(StopReason::ReceiverGone) && !receiver_closed),
{
    match end {
        Some(StopReason::ReceiverGone) => false,
        _ => !receiver_closed,
    }
}

/// Nothing is reported while the initial burst is drained: no change comes before the
/// initial content.
pub proof fn nothing_is_reported_while_draining(v: WatchView, kind: SelectionKind)
    requires
        v.phase is Draining,
    ensures
        watch_next(v, WatchEvent::Selection(kind)).1 is Dispatch,
        watch_next(v, WatchEvent::Selection(kind)).0.phase is Draining,
{
}

/// What the initial burst reported is reported as content on the first connection alone:
/// a later one reports a change.
pub proof fn a_reconnect_reports_no_initial_content(v: WatchView, event: WatchEvent)
    requires
        v.connect == Connect::Reconnect,
        event is BurstOver || event is DispatchOver || event is Selection || event is Sent,
        possible(v, event),
    ensures
        watch_next(v, event).1 matches WatchActionView::Send(e) ==> e is Changed,
        !(watch_next(v, event).1 is Read),
{
}

/// A change to a watched selection is reported in the dispatch that brings it, whatever
/// else the dispatch brings: also behind the event that invalidates the device.
pub proof fn a_change_behind_the_end_is_reported(v: WatchView, kind: SelectionKind)
    requires
        v.phase is Dispatching,
        watched(v, kind),
    ensures
        watch_next(v, WatchEvent::Finished).1 is Dispatch,
        watch_next(watch_next(v, WatchEvent::Finished).0, WatchEvent::Selection(kind)).1
            == WatchActionView::Send(EventView::Changed(kind)),
{
}

/// A connection on whose dispatch the receiver was gone, or the device invalid, ends with
/// that dispatch; the receiver's end is the one that is named.
pub proof fn a_dispatch_ends_the_connection(v: WatchView)
    requires
        v.phase is Dispatching,
    ensures
        watch_next(v, WatchEvent::DispatchOver).1 == (if v.dead {
            WatchActionView::Stop(StopReason::ReceiverGone)
        } else if v.finished {
            WatchActionView::Stop(StopReason::Finished)
        } else {
            WatchActionView::Dispatch
        }),
{
}

/// Each selection of the initial burst is reported at most once.
pub proof fn the_burst_counts_each_selection_once(v: WatchView, kind: SelectionKind)
    requires
        v.phase is Draining,
        v.pending.no_duplicates(),
    ensures
        watch_next(v, WatchEvent::Selection(kind)).0.pending.no_duplicates(),
{
}

} // verus!
