//! Clipboards: what is read into an offer, whose content it is, what a watcher is told, and what
//! a session serves.

use crate::clipboard::{kind_by_probe, narrowed, pairs_opt, refuse_primary_features};
use crate::clipboard::{report_initial, wanted_types, BackendKind, ClipboardEvent, Connect, EventView};
use crate::clipboard::Backend;
use crate::clipboard::atoms::machinery;
use crate::clipboard::budget::{after_types, planned, weight, OfferBudget};
use crate::clipboard::io::{ClipboardIo, Origin};
use crate::clipboard::mock::{MockClipboard, MockRead};
use crate::clipboard::mutter::{ReadPlan, SessionAction, SessionEvent, SessionPhase, Stop};
use crate::clipboard::mutter::{TransferEnd, WriteTicket};
use crate::clipboard::mutter::{deduped, without_machinery, ActionView, MutterClipboard, OwnerChange};
use crate::clipboard::mutter::WriteStep;
use crate::clipboard::watch::{watch_again, WatchPhase, WatchState};
use crate::clipboard::watch::{watched, StopReason, WatchAction, WatchActionView, WatchEvent};
use crate::clipboard::wayland::{all_answered, answers, assemble_offer, assembled, read_views};
use crate::clipboard::wayland::{read_offer_blocking, write_offer_blocking, Listing};
use crate::config::{BackendChoice, Config};
use crate::glob::same_folded;
use crate::offer::{bytes_of, offer_pairs, place_of, types_of, Offer, Pair};
use crate::protocol::{content_digest, Hashed, SelectionKind};
use crate::text::{has_prefix, texts};
use std::sync::Arc;
use vstd::prelude::*;
use vstd::utf8::encode_utf8;

verus! {

/// A representation is accepted if and only if it fits what is left of the budget: it then
/// stands behind all the others, and else nothing changes.
pub proof fn what_fits_is_accepted(b: &mut OfferBudget, mime: String, data: Vec<u8>, r: bool)
    requires
        call_ensures(OfferBudget::accept, (b, mime, data), r),
    ensures
        r <==> encode_utf8(mime@).len() + data@.len() + weight(old(b)@.pairs) <= old(b)@.max,
        r ==> final(b)@.pairs == old(b)@.pairs.push((mime@, data@)),
        !r ==> final(b)@.pairs == old(b)@.pairs,
        final(b)@.max == old(b)@.max,
{
}

/// What was accepted is what comes out, and its weight with it.
pub proof fn what_was_accepted_comes_out(b: OfferBudget, r: (Offer, usize))
    requires
        call_ensures(OfferBudget::finish, (b,), r),
    ensures
        offer_pairs(r.0) == b@.pairs,
        r.1 == weight(b@.pairs),
{
}

/// Where reading a type always gives its content, no type is machinery or repeats, and
/// everything is within the limit together, the assembled offer is the content of every type,
/// in the order in which they are advertised.
pub proof fn an_assembled_offer_misses_nothing<F: Fn(&str, usize) -> Option<Vec<u8>>>(
    types: Vec<String>,
    max: usize,
    read: F,
    r: (Offer, usize),
    content: spec_fn(Seq<char>) -> Seq<u8>,
)
    requires
        call_ensures(assemble_offer::<F>, (types, max, read), r),
        forall|m: &str, budget: usize, out: Option<Vec<u8>>| #[trigger]
            call_ensures(read, (m, budget), out) ==> (out matches Some(v) && v@ == content(m@)),
        texts(types@).no_duplicates(),
        forall|i: int| 0 <= i < types@.len() ==> !machinery(#[trigger] texts(types@)[i]),
        weight(texts(types@).map_values(|t: Seq<char>| (t, content(t)))) <= max,
    ensures
        offer_pairs(r.0) == texts(types@).map_values(|t: Seq<char>| (t, content(t))),
{
    let ts = texts(types@);
    assert(assembled(read, max as nat, ts, offer_pairs(r.0)));
    let reads = choose|reads: Seq<Option<Vec<u8>>>| #[trigger]
        all_answered(read, max as nat, ts, reads) && offer_pairs(r.0) == after_types(
            max as nat,
            ts,
            read_views(reads),
        ).pairs;
    let views = read_views(reads);
    assert forall|i: int| 0 <= i < ts.len() implies #[trigger] views[i] == Some(content(ts[i])) by {
        let (t, v) = (ts.take(i), read_views(reads.take(i)));
        let b = after_types(max as nat, t, v);
        crate::offer::lemma_place_of(b.pairs, ts[i]);
        if place_of(b.pairs, ts[i]) >= 0 {
            let p = b.pairs[place_of(b.pairs, ts[i])];
            crate::laws::offers::only_what_was_read_is_in_the_offer(max as nat, t, v, p);
            let k = choose|k: int|
                0 <= k < t.len() && #[trigger] t[k] == p.0 && v[k] == Some(p.1) && !machinery(t[k]);
            assert(ts[k] == ts[i]);
        }
        assert(planned(b, ts[i]) is Some);
        let left = planned(b, ts[i])->0;
        assert(answers(read, ts[i], left, reads[i]));
        let m = choose|m: &str|
            m@ == ts[i] && #[trigger] call_ensures(read, (m, left as usize), reads[i]);
        assert(call_ensures(read, (m, left as usize), reads[i]));
    }
    lemma_all_read(ts, views, content);
    crate::laws::offers::where_all_fits_all_is_in_the_offer(max as nat, ts, views);
}

proof fn lemma_all_read(
    types: Seq<Seq<char>>,
    reads: Seq<Option<Seq<u8>>>,
    content: spec_fn(Seq<char>) -> Seq<u8>,
)
    requires
        types.len() == reads.len(),
        forall|i: int| 0 <= i < types.len() ==> #[trigger] reads[i] == Some(content(types[i])),
        forall|i: int| 0 <= i < types.len() ==> !machinery(#[trigger] types[i]),
    ensures
        crate::laws::offers::readable(types, reads) == types.map_values(
            |t: Seq<char>| (t, content(t)),
        ),
    decreases types.len(),
{
    let all = types.map_values(|t: Seq<char>| (t, content(t)));
    if types.len() > 0 {
        let (t, r) = (types.drop_last(), reads.drop_last());
        assert forall|i: int| 0 <= i < t.len() implies #[trigger] r[i] == Some(content(t[i])) by {
            assert(reads[i] == Some(content(types[i])));
        }
        assert forall|i: int| 0 <= i < t.len() implies !machinery(#[trigger] t[i]) by {
            assert(!machinery(types[i]));
        }
        lemma_all_read(t, r, content);
        assert(reads[types.len() - 1] == Some(content(types[types.len() - 1])));
        assert(!machinery(types[types.len() - 1]));
        assert(all =~= t.map_values(|t: Seq<char>| (t, content(t))).push(
            (types.last(), content(types.last())),
        ));
    } else {
        assert(all =~= Seq::<Pair>::empty());
    }
}

/// Narrowing an offer to a request keeps the representations of that type, whatever the case of
/// its letters, in their order, and no others.
pub proof fn narrowing_keeps_the_requested_type(
    a: Seq<Pair>,
    p: Pair,
    b: Seq<Pair>,
    want: Seq<char>,
)
    ensures
        narrowed(a + seq![p] + b, want) == narrowed(a, want) + (if same_folded(
            encode_utf8(p.0),
            encode_utf8(want),
        ) {
            seq![p]
        } else {
            Seq::empty()
        }) + narrowed(b, want),
        narrowed(Seq::empty(), want).len() == 0,
    decreases b.len(),
{
    let all = a + seq![p] + b;
    let mid = if same_folded(encode_utf8(p.0), encode_utf8(want)) {
        seq![p]
    } else {
        Seq::empty()
    };
    if b.len() == 0 {
        assert(all.drop_last() =~= a);
        assert(narrowed(all, want) =~= narrowed(a, want) + mid + narrowed(b, want));
    } else {
        narrowing_keeps_the_requested_type(a, p, b.drop_last(), want);
        assert(all.drop_last() =~= a + seq![p] + b.drop_last());
        assert(all.last() == b.last());
        assert(narrowed(all, want) =~= narrowed(a, want) + mid + narrowed(b, want));
    }
}

/// Of the advertised types a request leaves those of that name, in their order; without one all
/// are left.
pub proof fn a_request_leaves_the_types_of_that_name(
    a: Seq<Seq<char>>,
    t: Seq<char>,
    b: Seq<Seq<char>>,
    want: Seq<char>,
)
    ensures
        wanted_types(a, None) == a,
        wanted_types(a + seq![t] + b, Some(want)) == wanted_types(a, Some(want)) + (
        if same_folded(encode_utf8(t), encode_utf8(want)) {
            seq![t]
        } else {
            Seq::empty()
        }) + wanted_types(b, Some(want)),
        wanted_types(Seq::empty(), Some(want)).len() == 0,
    decreases b.len(),
{
    let all = a + seq![t] + b;
    let w = Some(want);
    let mid = if same_folded(encode_utf8(t), encode_utf8(want)) {
        seq![t]
    } else {
        Seq::empty()
    };
    if b.len() == 0 {
        assert(all.drop_last() =~= a);
        assert(wanted_types(all, w) =~= wanted_types(a, w) + mid + wanted_types(b, w));
    } else {
        a_request_leaves_the_types_of_that_name(a, t, b.drop_last(), want);
        assert(all.drop_last() =~= a + seq![t] + b.drop_last());
        assert(all.last() == b.last());
        assert(wanted_types(all, w) =~= wanted_types(a, w) + mid + wanted_types(b, w));
    }
}

/// A selection that exists at startup is reported with its content, unless it is empty or
/// cannot be read.
pub proof fn an_existing_selection_is_reported(
    kind: SelectionKind,
    read: Option<Offer>,
    r: Option<ClipboardEvent>,
)
    requires
        call_ensures(report_initial, (kind, read), r),
    ensures
        r is Some <==> (read matches Some(o) && offer_pairs(o).len() > 0),
        r matches Some(e) ==> (e matches ClipboardEvent::Initial { kind: k, offer } && k == kind
            && Some(offer_pairs(offer)) == pairs_opt(read)),
{
    if let Some(e) = r {
        assert(crate::clipboard::event_opt(r) == Some(e@));
    }
}

/// Where no backend is chosen, data-control is used if the compositor offers it, and Mutter if
/// it does not or cannot be asked.
pub proof fn only_a_clear_yes_is_data_control(probe: Result<bool, String>)
    ensures
        kind_by_probe(probe) == BackendKind::DataControl <==> probe == Ok::<bool, String>(true),
{
}

/// On Mutter a configuration is refused if and only if one of its settings needs the primary
/// selection, and the refusal names that setting; on data-control none is.
pub proof fn mutter_has_no_primary_selection(
    cfg: &Config,
    kind: BackendKind,
    r: Result<(), String>,
)
    requires
        call_ensures(refuse_primary_features, (cfg, kind), r),
    ensures
        r is Err <==> kind == BackendKind::Mutter && (cfg.sync_selection
            || cfg.link_selections.clipboard_to_selection
            || cfg.link_selections.selection_to_clipboard),
        r matches Err(e) ==> {
            let link = cfg.link_selections.clipboard_to_selection
                || cfg.link_selections.selection_to_clipboard;
            &&& cfg.sync_selection ==> has_prefix(e@, "sync_selection "@)
            &&& !cfg.sync_selection ==> has_prefix(e@, "link_selections "@)
            &&& cfg.sync_selection && link ==> has_prefix(
                e@,
                "sync_selection and link_selections "@,
            )
        },
{
    reveal_strlit("sync_selection and link_selections need");
    reveal_strlit("sync_selection needs");
    reveal_strlit("link_selections needs");
    reveal_strlit("sync_selection ");
    reveal_strlit("link_selections ");
    reveal_strlit("sync_selection and link_selections ");
    if let Err(e) = r {
        if cfg.sync_selection {
            assert(e@.take(15) =~= "sync_selection "@);
        } else {
            assert(e@.take(16) =~= "link_selections "@);
        }
        if cfg.sync_selection && (cfg.link_selections.clipboard_to_selection
            || cfg.link_selections.selection_to_clipboard) {
            assert(e@.take(35) =~= "sync_selection and link_selections "@);
        }
    }
}

/// What was written is recognised when it is read, once; and what was written to one selection
/// says nothing of the other.
pub proof fn an_own_write_is_recognised_once(
    a: &mut ClipboardIo,
    kind: SelectionKind,
    content: &Hashed,
    b: &mut ClipboardIo,
    c: &mut ClipboardIo,
    first: Offer,
    second: Offer,
    r: Option<(Hashed, Origin)>,
    s: Option<(Hashed, Origin)>,
    other: SelectionKind,
)
    requires
        call_ensures(ClipboardIo::write, (a, kind, content), ()),
        *old(b) == *final(a),
        call_ensures(ClipboardIo::read_classified, (b, kind, Some(first)), r),
        *old(c) == *final(b),
        call_ensures(ClipboardIo::read_classified, (c, kind, Some(second)), s),
    ensures
        r is Some,
        (r->0).0@ == offer_pairs(first),
        (r->0).1 == Origin::Echo <==> content_digest(offer_pairs(first)) == content_digest(content@),
        offer_pairs(first) == content@ ==> (r->0).1 == Origin::Echo,
        s is Some,
        (s->0).1 == Origin::User,
        other != kind ==> final(c).awaiting(other) == old(a).awaiting(other),
{
    assert((s->0).1 == crate::clipboard::io::origin_of(old(c).awaiting(kind), (s->0).0@));
}

/// A write that failed leaves nothing to recognise: what is read then is the user's.
pub proof fn a_failed_write_has_no_echo(
    a: &mut ClipboardIo,
    kind: SelectionKind,
    ok: bool,
    b: &mut ClipboardIo,
    read: Offer,
    r: Option<(Hashed, Origin)>,
)
    requires
        call_ensures(ClipboardIo::written, (a, kind, false), ok),
        *old(b) == *final(a),
        call_ensures(ClipboardIo::read_classified, (b, kind, Some(read)), r),
    ensures
        !ok,
        r matches Some(x) && x.0@ == offer_pairs(read) && x.1 == Origin::User,
{
    assert((r->0).1 == crate::clipboard::io::origin_of(old(b).awaiting(kind), (r->0).0@));
}

/// While events are taken, a change to a watched selection is sent and one to another is not.
pub proof fn a_watched_change_is_sent(w: &mut WatchState, kind: SelectionKind, r: WatchAction)
    requires
        call_ensures(WatchState::watch_once, (w, WatchEvent::Selection(kind)), r),
        old(w)@.phase == WatchPhase::Dispatching,
    ensures
        kind == SelectionKind::Clipboard && old(w)@.clipboard || kind == SelectionKind::Selection
            && old(w)@.selection ==> r@ == WatchActionView::Send(EventView::Changed(kind)),
        kind == SelectionKind::Clipboard && !old(w)@.clipboard || kind == SelectionKind::Selection
            && !old(w)@.selection ==> r@ == WatchActionView::Dispatch,
        final(w)@ == old(w)@,
{
}

/// A watched selection of the initial burst is kept for the report, and no other; the report
/// goes through them in their order, with a read on the first connection, and as changes on a
/// later one.
pub proof fn the_burst_is_reported_in_its_order(
    w: &mut WatchState,
    kind: SelectionKind,
    r: WatchAction,
    x: &mut WatchState,
    s: WatchAction,
)
    requires
        call_ensures(WatchState::watch_once, (w, WatchEvent::Selection(kind)), r),
        old(w)@.phase == WatchPhase::Draining,
        call_ensures(WatchState::watch_once, (x, WatchEvent::BurstOver), s),
        old(x)@.phase == WatchPhase::Draining,
    ensures
        r is Dispatch,
        watched(old(w)@, kind) ==> final(w)@.pending.contains(kind),
        !watched(old(w)@, kind) ==> final(w)@.pending == old(w)@.pending,
        old(w)@.pending.is_prefix_of(final(w)@.pending),
        old(x)@.pending.len() > 0 && old(x)@.connect == Connect::Subscribe ==> s@
            == WatchActionView::Read(old(x)@.pending[0]),
        old(x)@.pending.len() > 0 && old(x)@.connect == Connect::Reconnect ==> s@
            == WatchActionView::Send(EventView::Changed(old(x)@.pending[0])) && final(x)@.pending
            == old(x)@.pending.skip(1),
        old(x)@.pending.len() == 0 && !old(x)@.finished && !old(x)@.dead ==> s is Dispatch
            && final(x)@.phase == WatchPhase::Dispatching,
{
    if watched(old(w)@, kind) {
        let now = final(w)@.pending;
        if !old(w)@.pending.contains(kind) {
            assert(now[old(w)@.pending.len() as int] == kind);
        }
    }
    assert(old(w)@.pending.is_prefix_of(final(w)@.pending)) by {
        assert(final(w)@.pending.take(old(w)@.pending.len() as int) =~= old(w)@.pending);
    }
}

/// What reading a selection of the burst gave is sent as its initial content, unless it is
/// empty or could not be read; either way the next one comes.
pub proof fn what_the_burst_read_is_sent(
    w: &mut WatchState,
    read: Option<Offer>,
    r: WatchAction,
)
    requires
        call_ensures(WatchState::watch_once, (w, WatchEvent::Read(read)), r),
        old(w)@.phase == WatchPhase::Reporting,
        old(w)@.pending.len() > 0,
    ensures
        read matches Some(o) ==> (offer_pairs(o).len() > 0 ==> r@ == WatchActionView::Send(
            EventView::Initial { kind: old(w)@.pending[0], pairs: offer_pairs(o) },
        )),
        read is None || offer_pairs(read->0).len() == 0 ==> !(r@ matches WatchActionView::Send(
            EventView::Initial { .. },
        )),
        old(w)@.connect == Connect::Subscribe ==> final(w)@.pending == old(w)@.pending.skip(1),
{
}

/// A watcher is started again after every end of a connection but that of its receiver.
pub proof fn a_watcher_is_started_again(end: Option<StopReason>, closed: bool, again: bool)
    requires
        call_ensures(watch_again, (end, closed), again),
    ensures
        again <==> !closed && end != Some(StopReason::ReceiverGone),
{
}

/// What Mutter announces is listed without machinery: every other type, in order, and a type
/// that comes twice in a row once.
pub proof fn machinery_is_left_out(a: Seq<Seq<char>>, t: Seq<char>, b: Seq<Seq<char>>)
    ensures
        without_machinery(a + seq![t] + b) == without_machinery(a) + (if machinery(t) {
            Seq::empty()
        } else {
            seq![t]
        }) + without_machinery(b),
        without_machinery(Seq::empty()).len() == 0,
    decreases b.len(),
{
    let all = a + seq![t] + b;
    let mid = if machinery(t) {
        Seq::empty()
    } else {
        seq![t]
    };
    if b.len() == 0 {
        assert(all.drop_last() =~= a);
        assert(without_machinery(all) =~= without_machinery(a) + mid + without_machinery(b));
    } else {
        machinery_is_left_out(a, t, b.drop_last());
        assert(all.drop_last() =~= a + seq![t] + b.drop_last());
        assert(all.last() == b.last());
        assert(without_machinery(all) =~= without_machinery(a) + mid + without_machinery(b));
    }
}

/// Taking repeated neighbours together loses no type and leaves no two equal neighbours.
pub proof fn neighbours_are_taken_together(types: Seq<Seq<char>>, t: Seq<char>, i: int)
    ensures
        deduped(types).contains(t) <==> types.contains(t),
        0 <= i < deduped(types).len() - 1 ==> deduped(types)[i] != deduped(types)[i + 1],
        (forall|k: int| 0 <= k < types.len() - 1 ==> #[trigger] types[k] != types[k + 1])
            ==> deduped(types) == types,
        types.len() > 0 ==> deduped(types).len() > 0 && deduped(types).last() == types.last(),
    decreases types.len(),
{
    if types.len() == 0 {
        assert(deduped(types) =~= types);
    } else {
        let rest = types.drop_last();
        neighbours_are_taken_together(rest, t, i);
        let (was, now, last) = (deduped(rest), deduped(types), types.last());
        assert(types.contains(t) <==> rest.contains(t) || t == last) by {
            if types.contains(t) {
                let k = choose|k: int| 0 <= k < types.len() && types[k] == t;
                if k < rest.len() {
                    assert(rest[k] == t);
                }
            }
            if rest.contains(t) {
                let k = choose|k: int| 0 <= k < rest.len() && rest[k] == t;
                assert(types[k] == t);
            }
            assert(types[types.len() - 1] == last);
        }
        if was.len() > 0 && was.last() == last {
            assert(was[was.len() - 1] == last);
        } else {
            assert(now.contains(t) <==> was.contains(t) || t == last) by {
                if now.contains(t) {
                    let k = choose|k: int| 0 <= k < now.len() && now[k] == t;
                    if k < was.len() {
                        assert(was[k] == t);
                    }
                }
                if was.contains(t) {
                    let k = choose|k: int| 0 <= k < was.len() && was[k] == t;
                    assert(now[k] == t);
                }
                assert(now[now.len() - 1] == last);
            }
        }
        if forall|k: int| 0 <= k < types.len() - 1 ==> #[trigger] types[k] != types[k + 1] {
            assert forall|k: int| 0 <= k < rest.len() - 1 implies #[trigger] rest[k] != rest[k + 1] by {
                assert(types[k] != types[k + 1]);
            }
            if rest.len() > 0 {
                let k = rest.len() - 1;
                assert(types[k] != types[k + 1]);
                assert(rest.last() == types[k]);
            }
            assert(now =~= types);
        }
    }
}

/// A session goes from enabling to the announcement that is queued; content that it finds is
/// read by the first session, and a change for a later one.
pub proof fn a_session_begins_with_what_it_finds(
    m: &mut MutterClipboard,
    r: (SessionPhase, SessionAction),
    n: &mut MutterClipboard,
    connect: Connect,
    change: Option<OwnerChange>,
    s: (SessionPhase, SessionAction),
)
    requires
        call_ensures(MutterClipboard::session_once, (m, SessionPhase::Enabling, SessionEvent::Enabled), r),
        call_ensures(
            MutterClipboard::session_once,
            (n, SessionPhase::Enabled(connect), SessionEvent::Announced(change)),
            s,
        ),
    ensures
        r.1@ == ActionView::TakeAnnouncement,
        r.0 == SessionPhase::Enabled(Connect::Subscribe) <==> !old(m).was_subscribed(),
        r.0 == SessionPhase::Enabled(Connect::Reconnect) <==> old(m).was_subscribed(),
        final(m).has_session(),
        final(m).was_subscribed(),
        change is None ==> s.1@ == ActionView::Wait,
        change is Some && connect == Connect::Subscribe ==> s.1@ == ActionView::Read,
        change is Some && connect == Connect::Reconnect ==> s.1@ == ActionView::Notify(
            EventView::Changed(SelectionKind::Clipboard),
        ),
        change matches Some(c) ==> final(n).announced() == texts(c.types@) && final(n).owns()
            == c.session_is_owner,
{
}

/// While a session serves, a new owner is told as a change of the clipboard, and a request for
/// content is served as it was asked; the end of either stream fails it, and Mutter's closing
/// it ends it.
pub proof fn a_session_tells_and_serves(
    m: &mut MutterClipboard,
    event: SessionEvent,
    r: (SessionPhase, SessionAction),
)
    requires
        call_ensures(MutterClipboard::session_once, (m, SessionPhase::Serving, event), r),
    ensures
        event is OwnerChanged ==> r.1@ == ActionView::Notify(
            EventView::Changed(SelectionKind::Clipboard),
        ),
        event matches SessionEvent::OwnerChanged(c) ==> final(m).announced() == texts(c.types@)
            && final(m).owns() == c.session_is_owner,
        event matches SessionEvent::Transfer { mime, serial } ==> r.1@ == (ActionView::Serve {
            mime: mime@,
            serial,
        }) && r.0 == SessionPhase::Serving,
        event is OwnerStreamEnded || event is TransferStreamEnded ==> r.1@ is Fail && r.0
            == SessionPhase::Over,
        event is Closed ==> r.1@ == ActionView::Stop(Stop::SessionClosed) && r.0
            == SessionPhase::Over,
{
}

/// What a session read at its start is told with its content, unless there is none; and it
/// stops when nobody who listens is left.
pub proof fn a_session_stops_when_nobody_listens(
    m: &mut MutterClipboard,
    read: Option<Offer>,
    r: (SessionPhase, SessionAction),
    n: &mut MutterClipboard,
    gone: Vec<u64>,
    s: (SessionPhase, SessionAction),
)
    requires
        call_ensures(MutterClipboard::session_once, (m, SessionPhase::Reading, SessionEvent::Read(read)), r),
        call_ensures(
            MutterClipboard::session_once,
            (n, SessionPhase::Notifying, SessionEvent::Notified(gone)),
            s,
        ),
    ensures
        read matches Some(o) ==> (offer_pairs(o).len() > 0 ==> r.1@ == ActionView::Notify(
            EventView::Initial { kind: SelectionKind::Clipboard, pairs: offer_pairs(o) },
        )),
        read is None || offer_pairs(read->0).len() == 0 ==> r.1@ == ActionView::Wait,
        s.1@ == ActionView::Stop(Stop::EngineGone) <==> final(n).subscribers().len() == 0,
        s.1@ == ActionView::Wait <==> final(n).subscribers().len() > 0,
        forall|w: u64|
            final(n).subscribers().contains(w) <==> #[trigger] old(n).subscribers().contains(w)
                && !gone@.contains(w),
{
    assert forall|w: u64|
        final(n).subscribers().contains(w) <==> #[trigger] old(n).subscribers().contains(w)
            && !gone@.contains(w) by {
        crate::clipboard::mutter::only_those_gone_are_dropped(old(n).subscribers(), gone@, w);
    }
}

/// What is written to the clipboard is announced with its types, in their order, and served
/// from then on, byte for byte.
pub proof fn what_is_written_is_served(
    m: &mut MutterClipboard,
    offer: Arc<Offer>,
    r: Result<WriteStep, String>,
    mime: &str,
    s: Result<&Vec<u8>, String>,
)
    requires
        call_ensures(MutterClipboard::write_offer, (m, SelectionKind::Clipboard, offer), r),
        old(m).has_session(),
        offer_pairs(*offer).len() > 0,
        call_ensures(MutterClipboard::serve_transfer, (&*final(m), mime), s),
    ensures
        r matches Ok(WriteStep::Announce { types, ticket }) && texts(types@) == types_of(
            offer_pairs(*offer),
        ),
        s matches Ok(data) ==> bytes_of(offer_pairs(*offer), mime@) == Some(data@),
        s is Err <==> bytes_of(offer_pairs(*offer), mime@) is None,
{
}

/// A clipboard that this session owns is read from what was written; another is read from its
/// owner, type by type, if there is a session; and the primary selection not at all.
pub proof fn own_content_is_read_back(
    m: &MutterClipboard,
    kind: SelectionKind,
    r: Result<ReadPlan, String>,
    types: Result<Vec<String>, String>,
)
    requires
        call_ensures(MutterClipboard::read_offer, (m, kind, None), r),
        call_ensures(MutterClipboard::list_types, (m, kind), types),
    ensures
        kind == SelectionKind::Selection ==> r is Err && types is Err,
        kind == SelectionKind::Clipboard ==> r is Ok && types is Ok,
        kind == SelectionKind::Clipboard && m.owns() && m.held() is Some ==> (r matches Ok(
            ReadPlan::Own(o),
        ) && Some(offer_pairs(o)) == m.held() && (types matches Ok(t) && texts(t@) == types_of(
            m.held()->0,
        ))),
        kind == SelectionKind::Clipboard && !m.owns() && m.has_session() ==> (r matches Ok(
            ReadPlan::Types(t),
        ) && texts(t@) == m.announced()),
        kind == SelectionKind::Clipboard && !m.owns() && !m.has_session() ==> r == Ok::<
            ReadPlan,
            String,
        >(ReadPlan::NotConnected),
        kind == SelectionKind::Clipboard && !m.owns() ==> (types matches Ok(t) && texts(t@)
            == deduped(without_machinery(m.announced()))),
{
}

/// An owner that is announced without types or without a flag has none and is not this session.
pub proof fn an_announcement_is_taken_at_its_word(
    mime_types: Option<Vec<String>>,
    flag: Option<bool>,
    r: OwnerChange,
)
    requires
        call_ensures(crate::clipboard::mutter::parse_owner_changed, (mime_types, flag), r),
    ensures
        mime_types matches Some(t) ==> texts(r.types@) == texts(t@),
        mime_types is None ==> r.types@.len() == 0,
        r.session_is_owner <==> flag == Some(true),
{
    assert(texts(r.types@).len() == r.types@.len());
}

/// Each subscriber has a number of its own, and the first one, or one after the last has gone,
/// has a task started for it.
pub proof fn a_subscriber_is_served(m: &mut MutterClipboard, r: (u64, bool))
    requires
        call_ensures(MutterClipboard::watch, (m,), r),
    ensures
        !old(m).subscribers().contains(r.0),
        final(m).subscribers().contains(r.0),
        final(m).is_served(),
        r.1 <==> !old(m).is_served(),
{
    assert(final(m).subscribers().last() == r.0);
    assert(final(m).subscribers()[final(m).subscribers().len() - 1] == r.0);
}

/// What is written to the clipboard of tests is read back from it, by request or as a whole,
/// and every watcher is told.
pub proof fn a_mock_write_is_read_back(
    m: &mut MockClipboard,
    kind: SelectionKind,
    offer: Offer,
    r: Result<(), String>,
    s: Result<MockRead, String>,
    w: int,
)
    requires
        call_ensures(MockClipboard::write_offer, (m, kind, offer), r),
        call_ensures(MockClipboard::read_offer, (&*final(m), kind, None), s),
        !old(m).writes_fail(),
        !old(m).reads_fail(),
        !old(m).reads_stall(),
        0 <= w < old(m).queues().len(),
    ensures
        r is Ok,
        s matches Ok(MockRead::Content(o)) && offer_pairs(o) == offer_pairs(offer),
        final(m).queues().len() == old(m).queues().len(),
        final(m).queues()[w] == old(m).queues()[w].push(EventView::Changed(kind)),
{
}

/// Before anything was written, what is read is the user's; and reading changes nothing of it.
pub proof fn what_is_first_read_is_the_users(
    io: ClipboardIo,
    a: &mut ClipboardIo,
    kind: SelectionKind,
    read: Offer,
    r: Option<(Hashed, Origin)>,
    h: Option<Hashed>,
    none: Option<Hashed>,
)
    requires
        call_ensures(ClipboardIo::new, (), io),
        *old(a) == io,
        call_ensures(ClipboardIo::read_classified, (a, kind, Some(read)), r),
        call_ensures(ClipboardIo::read, (&io, Some(read)), h),
        call_ensures(ClipboardIo::read, (&io, None), none),
    ensures
        r matches Some(x) && x.0@ == offer_pairs(read) && x.1 == Origin::User,
        h matches Some(x) && x@ == offer_pairs(read),
        none is None,
{
    assert(io.awaiting(kind) is None);
    assert((r->0).1 == crate::clipboard::io::origin_of(old(a).awaiting(kind), (r->0).0@));
}

/// The backend that is asked for is taken, and `auto` goes by the probe; it gets the limit of the
/// config, and a config that it cannot serve is refused.
pub proof fn the_backend_asked_for_is_taken<F: FnOnce() -> Result<bool, String>>(
    choice: BackendChoice,
    cfg: &Config,
    probe: F,
    r: Result<Backend, String>,
)
    requires
        call_ensures(Backend::select::<F>, (choice, cfg, probe), r),
    ensures
        r matches Ok(b) ==> {
            &&& b.limit() == cfg.max_payload_size
            &&& choice == BackendChoice::DataControl ==> b.kind() == BackendKind::DataControl
            &&& choice == BackendChoice::Mutter ==> b.kind() == BackendKind::Mutter
            &&& choice == BackendChoice::Auto && b.kind() == BackendKind::DataControl ==> exists|
                out: Result<bool, String>,
            | #[trigger] call_ensures(probe, (), out) && out == Ok::<bool, String>(true)
        },
        choice == BackendChoice::DataControl ==> r is Ok,
        choice == BackendChoice::Mutter && (cfg.sync_selection
            || cfg.link_selections.clipboard_to_selection
            || cfg.link_selections.selection_to_clipboard) ==> r is Err,
        choice == BackendChoice::Mutter && !cfg.sync_selection
            && !cfg.link_selections.clipboard_to_selection
            && !cfg.link_selections.selection_to_clipboard ==> r is Ok,
{
    let kind = choose|kind: BackendKind|
        {
            &&& choice == BackendChoice::DataControl ==> kind == BackendKind::DataControl
            &&& choice == BackendChoice::Mutter ==> kind == BackendKind::Mutter
            &&& choice == BackendChoice::Auto ==> exists|out: Result<bool, String>|
                #[trigger] call_ensures(probe, (), out) && kind == kind_by_probe(out)
            &&& match r {
                Ok(b) => {
                    &&& #[trigger] crate::clipboard::refusal(*cfg, kind) is None
                    &&& b.kind() == kind
                    &&& b.limit() == cfg.max_payload_size
                },
                Err(e) => crate::clipboard::refusal(*cfg, kind) == Some(e@),
            }
        };
    if choice == BackendChoice::Auto && r is Ok && kind == BackendKind::DataControl {
        let out = choose|out: Result<bool, String>| #[trigger]
            call_ensures(probe, (), out) && kind == kind_by_probe(out);
        assert(call_ensures(probe, (), out));
        assert(out == Ok::<bool, String>(true));
    }
}

/// A selection without types is read as an empty offer, one that cannot be listed is an error,
/// with its cause, and of any other every type is read that is asked for.
pub proof fn a_selection_is_read_type_by_type<F: Fn(&str, usize) -> Option<Vec<u8>>>(
    listing: Listing,
    only: Option<&str>,
    max: usize,
    read: F,
    r: Result<Offer, String>,
)
    requires
        call_ensures(read_offer_blocking::<F>, (listing, only, max, read), r),
    ensures
        r is Err <==> listing is Failed,
        listing matches Listing::Failed(why) ==> (r matches Err(e) && e@ == why@),
        listing is Nothing ==> (r matches Ok(o) && offer_pairs(o).len() == 0),
        listing matches Listing::Types(types) ==> (r matches Ok(o) && assembled(
            read,
            max as nat,
            match only {
                Some(want) => wanted_types(texts(types@), Some(want@)),
                None => texts(types@),
            },
            offer_pairs(o),
        )),
{
}

/// Every representation of an offer is served, in order and with all its bytes; an empty offer is
/// not served at all.
pub proof fn all_of_an_offer_is_served(
    offer: &Offer,
    r: Option<Vec<(String, Vec<u8>)>>,
    i: int,
)
    requires
        call_ensures(write_offer_blocking, (offer,), r),
    ensures
        r is None <==> offer_pairs(*offer).len() == 0,
        r matches Some(sources) ==> sources@.len() == offer_pairs(*offer).len(),
        r is Some && 0 <= i < offer_pairs(*offer).len() ==> (r->0@[i].0@, r->0@[i].1@)
            == offer_pairs(*offer)[i],
{
}

/// The clipboard of tests starts empty and without watchers; each switch turns what it names and
/// nothing else.
pub proof fn each_switch_of_the_mock_stands_alone(
    new: MockClipboard,
    a: &mut MockClipboard,
    b: &mut MockClipboard,
    c: &mut MockClipboard,
    d: &mut MockClipboard,
    fail: bool,
    kind: SelectionKind,
    held: Option<Offer>,
    watchers: usize,
    writes: u64,
)
    requires
        call_ensures(MockClipboard::new, (), new),
        call_ensures(MockClipboard::get, (&new, kind), held),
        call_ensures(MockClipboard::watcher_count, (&new,), watchers),
        call_ensures(MockClipboard::write_count, (&new,), writes),
        call_ensures(MockClipboard::set_fail_writes, (a, fail), ()),
        call_ensures(MockClipboard::set_fail_reads, (b, fail), ()),
        call_ensures(MockClipboard::block_reads, (c,), ()),
        call_ensures(MockClipboard::allow_reads, (d,), ()),
    ensures
        held is None,
        watchers == 0,
        writes == 0,
        !new.writes_fail() && !new.reads_fail() && !new.reads_stall(),
        final(a).writes_fail() == fail,
        final(a).reads_fail() == old(a).reads_fail(),
        final(a).reads_stall() == old(a).reads_stall(),
        final(b).reads_fail() == fail,
        final(b).writes_fail() == old(b).writes_fail(),
        final(b).reads_stall() == old(b).reads_stall(),
        final(c).reads_stall(),
        final(c).reads_fail() == old(c).reads_fail(),
        final(c).writes_fail() == old(c).writes_fail(),
        !final(d).reads_stall(),
        final(a).content(kind) == old(a).content(kind),
        final(b).content(kind) == old(b).content(kind),
        final(c).content(kind) == old(c).content(kind),
        final(d).content(kind) == old(d).content(kind),
        final(a).queues() == old(a).queues(),
        final(b).queues() == old(b).queues(),
{
    assert(new.content(kind) is None);
}

/// A local copy is told to every watcher and a seed to none; both are what is then held. A new
/// watcher learns first what is there, and takes its events in the order in which they came.
pub proof fn a_mock_watcher_hears_of_every_copy(
    a: &mut MockClipboard,
    b: &mut MockClipboard,
    kind: SelectionKind,
    offer: Offer,
    held: Option<Offer>,
    seeded: Option<Offer>,
    w: usize,
    c: &mut MockClipboard,
    e: Option<ClipboardEvent>,
    d: &mut MockClipboard,
    id: usize,
)
    requires
        call_ensures(MockClipboard::local_copy, (a, kind, offer), ()),
        call_ensures(MockClipboard::get, (&*final(a), kind), held),
        call_ensures(MockClipboard::seed, (b, kind, offer), ()),
        call_ensures(MockClipboard::get, (&*final(b), kind), seeded),
        w < old(a).queues().len(),
        *old(c) == *final(a),
        call_ensures(MockClipboard::recv, (c, w), e),
        call_ensures(MockClipboard::watch, (d,), id),
    ensures
        held matches Some(o) && offer_pairs(o) == offer_pairs(offer),
        seeded matches Some(o) && offer_pairs(o) == offer_pairs(offer),
        final(b).queues() == old(b).queues(),
        final(a).queues()[w as int] == old(a).queues()[w as int].push(EventView::Changed(kind)),
        final(a).writes() == old(a).writes(),
        e is Some,
        old(a).queues()[w as int].len() == 0 ==> (e->0)@ == EventView::Changed(kind),
        old(a).queues()[w as int].len() > 0 ==> (e->0)@ == old(a).queues()[w as int][0],
        final(c).queues()[w as int].len() == old(a).queues()[w as int].len(),
        id == old(d).queues().len(),
        final(d).queues().len() == old(d).queues().len() + 1,
        old(d).content(SelectionKind::Clipboard) is None && old(d).content(SelectionKind::Selection)
            is None ==> final(d).queues().last().len() == 0,
        old(d).content(SelectionKind::Clipboard) matches Some(pairs) ==> (pairs.len() > 0
            ==> final(d).queues().last()[0] == (EventView::Initial { kind: SelectionKind::Clipboard, pairs })),
{
    assert(final(a).content(kind) == Some(offer_pairs(offer)));
    assert(final(b).content(kind) == Some(offer_pairs(offer)));
}

/// A transfer is over well only if it was served; the watchers of the clipboard are its
/// subscribers, and writes and watches are taken while there are numbers for them.
pub proof fn a_transfer_is_done_when_served(
    end: TransferEnd,
    done: bool,
    new: MutterClipboard,
    max: usize,
    write: bool,
    watch: bool,
    w: &[u64],
)
    requires
        call_ensures(MutterClipboard::transfer_done, (end,), done),
        call_ensures(MutterClipboard::new, (max,), new),
        call_ensures(MutterClipboard::can_write, (&new,), write),
        call_ensures(MutterClipboard::can_watch, (&new,), watch),
        call_ensures(MutterClipboard::watchers, (&new,), w),
    ensures
        done <==> end == TransferEnd::Served,
        write,
        watch,
        w@.len() == 0,
        !new.has_session(),
        new.held() is None,
        !new.is_served(),
        new.limit() == max,
{
}

/// After an attempt without a session the watchers that are gone are dropped, and one goes on
/// only while there are others; a session that came about stays remembered.
pub proof fn one_goes_on_for_the_watchers_that_are_left(
    m: &mut MutterClipboard,
    gone: &[u64],
    go_on: bool,
    w: u64,
)
    requires
        call_ensures(MutterClipboard::attempt_finished, (m, gone), go_on),
    ensures
        go_on <==> final(m).subscribers().len() > 0,
        !go_on ==> !final(m).is_served(),
        !final(m).has_session(),
        final(m).held() == old(m).held(),
        final(m).was_subscribed() == old(m).was_subscribed(),
        final(m).subscribers().contains(w) <==> old(m).subscribers().contains(w) && !gone@.contains(
            w,
        ),
{
    crate::clipboard::mutter::only_those_gone_are_dropped(old(m).subscribers(), gone@, w);
}

/// A write that failed puts back what was held before it, unless another write came in between;
/// one that went well leaves what it wrote.
pub proof fn only_a_failed_write_is_taken_back(
    a: &mut MutterClipboard,
    offer: Arc<Offer>,
    types: Vec<String>,
    ticket: WriteTicket,
    b: &mut MutterClipboard,
    ok: bool,
)
    requires
        call_ensures(
            MutterClipboard::write_offer,
            (a, SelectionKind::Clipboard, offer),
            Ok(WriteStep::Announce { types, ticket }),
        ),
        *old(b) == *final(a),
        call_ensures(MutterClipboard::wrote, (b, ticket, ok), ()),
    ensures
        texts(types@) == types_of(offer_pairs(*offer)),
        final(a).held() == Some(offer_pairs(*offer)),
        ok ==> final(b).held() == Some(offer_pairs(*offer)),
        !ok ==> final(b).held() == old(a).held(),
{
}

/// Once a change could not be handed over, the connection ends when the dispatch does, because
/// the receiver is gone, even if the device is gone as well; a device that is gone ends it too.
pub proof fn a_gone_receiver_ends_the_connection(
    a: &mut WatchState,
    b: &mut WatchState,
    c: &mut WatchState,
    d: &mut WatchState,
    w: WatchAction,
    x: WatchAction,
    y: WatchAction,
    z: WatchAction,
)
    requires
        old(a)@.phase is Dispatching,
        !old(a)@.dead,
        call_ensures(WatchState::watch_once, (a, WatchEvent::Sent(false)), w),
        *old(b) == *final(a),
        call_ensures(WatchState::watch_once, (b, WatchEvent::DispatchOver), x),
        *old(c) == *old(a),
        call_ensures(WatchState::watch_once, (c, WatchEvent::Finished), y),
        *old(d) == *final(c),
        call_ensures(WatchState::watch_once, (d, WatchEvent::DispatchOver), z),
    ensures
        w is Dispatch,
        x matches WatchAction::Stop(StopReason::ReceiverGone),
        y is Dispatch,
        z matches WatchAction::Stop(StopReason::Finished),
        final(b)@.phase is Over,
        final(d)@.phase is Over,
{
    assert(w@ is Dispatch && y@ is Dispatch);
    assert(x@ == WatchActionView::Stop(StopReason::ReceiverGone));
    assert(z@ == WatchActionView::Stop(StopReason::Finished));
}

/// A connection starts by draining what is already there, of the selections that it was asked to
/// watch, and with nothing to report.
pub proof fn a_connection_starts_by_draining(
    kinds: &[SelectionKind],
    connect: Connect,
    r: WatchState,
    kind: SelectionKind,
)
    requires
        call_ensures(WatchState::new, (kinds, connect), r),
    ensures
        r@.phase is Draining,
        r@.pending.len() == 0,
        r@.connect == connect,
        !r@.dead && !r@.finished,
        watched(r@, kind) <==> kinds@.contains(kind),
{
}

/// A failed write takes back nothing that was written after it.
pub proof fn a_later_write_stands(
    a: &mut MutterClipboard,
    b: &mut MutterClipboard,
    c: &mut MutterClipboard,
    first: Arc<Offer>,
    second: Arc<Offer>,
    s: Vec<String>,
    t: Vec<String>,
    x: WriteTicket,
    y: WriteTicket,
    ok: bool,
)
    requires
        old(a).last_number() + 1 < u64::MAX,
        call_ensures(
            MutterClipboard::write_offer,
            (a, SelectionKind::Clipboard, first),
            Ok(WriteStep::Announce { types: s, ticket: x }),
        ),
        *old(b) == *final(a),
        call_ensures(
            MutterClipboard::write_offer,
            (b, SelectionKind::Clipboard, second),
            Ok(WriteStep::Announce { types: t, ticket: y }),
        ),
        *old(c) == *final(b),
        call_ensures(MutterClipboard::wrote, (c, x, ok), ()),
    ensures
        final(c).held() == Some(offer_pairs(*second)),
{
}

/// A read for one type gives that type and no other, from the clipboard of tests as from one's own
/// content.
pub proof fn a_read_for_one_type_gives_that_type(
    m: &MockClipboard,
    kind: SelectionKind,
    want: &str,
    o: Offer,
    g: &MutterClipboard,
    own: Offer,
    i: int,
)
    requires
        call_ensures(
            MockClipboard::read_offer,
            (m, kind, Some(want)),
            Ok::<MockRead, String>(MockRead::Content(o)),
        ),
        call_ensures(
            MutterClipboard::read_offer,
            (g, SelectionKind::Clipboard, Some(want)),
            Ok::<ReadPlan, String>(ReadPlan::Own(own)),
        ),
    ensures
        0 <= i < offer_pairs(o).len() ==> same_folded(
            encode_utf8(offer_pairs(o)[i].0),
            encode_utf8(want@),
        ) && m.content(kind) is Some && m.content(kind)->0.contains(offer_pairs(o)[i]),
        0 <= i < offer_pairs(own).len() ==> same_folded(
            encode_utf8(offer_pairs(own)[i].0),
            encode_utf8(want@),
        ),
        g.owns(),
{
    let all = match m.content(kind) {
        Some(pairs) => pairs,
        None => Seq::empty(),
    };
    lemma_narrowed(all, want@, i);
    assert(g.own_content() is Some);
    lemma_narrowed(g.own_content()->0, want@, i);
}

proof fn lemma_narrowed(pairs: Seq<Pair>, want: Seq<char>, i: int)
    ensures
        0 <= i < narrowed(pairs, want).len() ==> same_folded(
            encode_utf8(narrowed(pairs, want)[i].0),
            encode_utf8(want),
        ) && pairs.contains(narrowed(pairs, want)[i]),
    decreases pairs.len(),
{
    if pairs.len() > 0 {
        let rest = pairs.drop_last();
        lemma_narrowed(rest, want, i);
        if 0 <= i < narrowed(rest, want).len() {
            let p = narrowed(rest, want)[i];
            let k = choose|k: int| 0 <= k < rest.len() && rest[k] == p;
            assert(pairs[k] == p);
        }
        assert(pairs[pairs.len() - 1] == pairs.last());
    }
}

} // verus!
