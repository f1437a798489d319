//! Clipboards: what a backend reports, and which backend a node runs.

pub mod atoms;
pub mod budget;
pub mod io;
pub mod mock;
pub mod mutter;
pub mod watch;
pub mod wayland;

use crate::backoff::Nanos;
use crate::clipboard::mutter::MutterClipboard;
use crate::clipboard::wayland::WaylandClipboard;
use crate::config::{BackendChoice, Config};
use crate::offer::{new_offer, offer_at, offer_insert, offer_len, offer_pairs, place_of, Offer, Pair};
use crate::glob::same_folded;
use crate::protocol::{type_matches, SelectionKind};
use crate::text::{clone_texts, texts};
use vstd::prelude::*;
use vstd::utf8::encode_utf8;

verus! {

/// How long a watcher's startup content read may take: it runs ahead of change detection,
/// so it must not hang there.
pub const STARTUP_READ_TIMEOUT: Nanos = 5_000_000_000;

/// Why a watcher's connection to the compositor is being made, which decides how its
/// startup burst is reported.
#[derive(Debug, Clone, Copy, PartialEq, Eq, Structural)]
pub enum Connect {
    /// The first connection: what it finds is pre-existing content.
    Subscribe,
    /// A later connection. The watcher was blind while it was down, so what it finds now
    /// is reported as an ordinary local change.
    Reconnect,
}

/// What a clipboard watcher reports.
#[derive(Debug, PartialEq, Eq)]
pub enum ClipboardEvent {
    /// The selection's content as of the `watch` call that produced this stream. At most
    /// one per selection, always before any `Changed` for it, and omitted entirely when
    /// the selection was empty.
    Initial { kind: SelectionKind, offer: Offer },
    /// The selection changed after `watch` was called.
    Changed(SelectionKind),
}

/// What a clipboard watcher reports, over representations.
#[verifier::ext_equal]
pub enum EventView {
    Initial { kind: SelectionKind, pairs: Seq<Pair> },
    Changed(SelectionKind),
}

impl View for ClipboardEvent {
    type V = EventView;

    open spec fn view(&self) -> EventView {
        match *self {
            ClipboardEvent::Initial { kind, offer } => EventView::Initial {
                kind,
                pairs: offer_pairs(offer),
            },
            ClipboardEvent::Changed(kind) => EventView::Changed(kind),
        }
    }
}

/// What an existing selection is reported as at startup, given what reading it gave:
/// an empty or unreadable one is not reported.
pub open spec fn startup_report(kind: SelectionKind, read: Option<Seq<Pair>>) -> Option<EventView> {
    match read {
        Some(pairs) => if pairs.len() > 0 {
            Some(EventView::Initial { kind, pairs })
        } else {
            None
        },
        None => None,
    }
}

/// The representations of what a read gave.
pub open spec fn pairs_opt(read: Option<Offer>) -> Option<Seq<Pair>> {
    match read {
        Some(o) => Some(offer_pairs(o)),
        None => None,
    }
}

/// An event, over representations.
pub open spec fn event_opt(e: Option<ClipboardEvent>) -> Option<EventView> {
    match e {
        Some(e) => Some(e@),
        None => None,
    }
}

/// Reports an existing selection at startup, given what reading it gave.
pub fn report_initial(kind: SelectionKind, read: Option<Offer>) -> (r: Option<ClipboardEvent>)
    ensures
        event_opt(r) == startup_report(kind, pairs_opt(read)),
{
    match read {
        Some(offer) => {
            if offer_len(&offer) == 0 {
                None
            } else {
                Some(ClipboardEvent::Initial { kind, offer })
            }
        },
        None => None,
    }
}

/// The representations whose type satisfies a request, in order.
pub open spec fn narrowed(pairs: Seq<Pair>, want: Seq<char>) -> Seq<Pair>
    decreases pairs.len(),
{
    if pairs.len() == 0 {
        Seq::empty()
    } else {
        let rest = narrowed(pairs.drop_last(), want);
        if same_folded(encode_utf8(pairs.last().0), encode_utf8(want)) {
            rest.push(pairs.last())
        } else {
            rest
        }
    }
}

proof fn lemma_narrowed_is_part(pairs: Seq<Pair>, want: Seq<char>, mime: Seq<char>)
    requires
        place_of(pairs, mime) == -1,
    ensures
        place_of(narrowed(pairs, want), mime) == -1,
    decreases pairs.len(),
{
    if pairs.len() > 0 {
        lemma_narrowed_is_part(pairs.drop_last(), want, mime);
        let rest = narrowed(pairs.drop_last(), want);
        assert(rest.push(pairs.last()).drop_last() =~= rest);
    }
}

/// The representations of an offer whose type satisfies a request, in order.
pub fn narrow(offer: &Offer, want: &str) -> (r: Offer)
    ensures
        offer_pairs(r) == narrowed(offer_pairs(*offer), want@),
{
    let n: usize = offer_len(offer);
    let ghost pairs = offer_pairs(*offer);
    let mut r = new_offer();
    let mut i: usize = 0;
    proof {
        assert(pairs.take(0) =~= Seq::<Pair>::empty());
    }
    while i < n
        invariant
            i <= n,
            pairs == offer_pairs(*offer),
            n == pairs.len(),
            crate::offer::distinct_types(pairs),
            offer_pairs(r) == narrowed(pairs.take(i as int), want@),
        decreases n - i,
    {
        let (mime, data) = offer_at(offer, i);
        proof {
            let before = pairs.take(i as int);
            assert(pairs.take(i + 1).drop_last() =~= before);
            crate::offer::lemma_place_of(before, mime@);
            if place_of(before, mime@) >= 0 {
                let k = place_of(before, mime@);
                assert(pairs[k].0 != pairs[i as int].0);
            }
            lemma_narrowed_is_part(before, want@, mime@);
        }
        if type_matches(mime.as_str(), want) {
            offer_insert(&mut r, mime.clone(), crate::clipboard::atoms::copy_bytes(data.as_slice()));
        }
        i += 1;
    }
    proof {
        assert(pairs.take(pairs.len() as int) =~= pairs);
    }
    r
}

/// The types that satisfy a request, in order.
pub open spec fn wanted_types(types: Seq<Seq<char>>, want: Option<Seq<char>>) -> Seq<Seq<char>>
    decreases types.len(),
{
    match want {
        None => types,
        Some(w) => if types.len() == 0 {
            Seq::empty()
        } else {
            let rest = wanted_types(types.drop_last(), want);
            if same_folded(encode_utf8(types.last()), encode_utf8(w)) {
                rest.push(types.last())
            } else {
                rest
            }
        },
    }
}

/// The types that satisfy a request, or all of them, in order.
pub fn keep_wanted(types: &[String], only: Option<&str>) -> (r: Vec<String>)
    ensures
        texts(r@) == wanted_types(
            texts(types@),
            match only {
                Some(want) => Some(want@),
                None => None,
            },
        ),
{
    let want = match only {
        Some(want) => want,
        None => {
            return clone_texts(types);
        },
    };
    let ghost all = texts(types@);
    let ghost w = Some(want@);
    let mut kept: Vec<String> = Vec::new();
    let mut i: usize = 0;
    proof {
        assert(all.take(0) =~= Seq::<Seq<char>>::empty());
        assert(texts(kept@) =~= Seq::<Seq<char>>::empty());
    }
    while i < types.len()
        invariant
            i <= types@.len(),
            all == texts(types@),
            w == Some(want@),
            texts(kept@) == wanted_types(all.take(i as int), w),
        decreases types@.len() - i,
    {
        let mime = &types[i];
        let ghost was = kept@;
        proof {
            assert(all.take(i + 1).drop_last() =~= all.take(i as int));
            assert(all.take(i + 1).last() == mime@);
        }
        if type_matches(mime.as_str(), want) {
            kept.push(mime.clone());
            proof {
                assert(texts(kept@) =~= texts(was).push(mime@));
            }
        }
        i += 1;
    }
    proof {
        assert(all.take(all.len() as int) =~= all);
    }
    kept
}

/// The clipboard backend the daemon runs, picked once at startup by
/// [`Backend::select`].
pub enum Backend {
    /// The data-control protocol, in-process.
    Wayland(WaylandClipboard),
    /// Mutter's remote-desktop clipboard D-Bus API: GNOME.
    Mutter(MutterClipboard),
}

/// A resolved [`BackendChoice`]: what `auto` decided, or what was forced.
#[derive(Debug, Clone, Copy, PartialEq, Eq, Structural)]
pub enum BackendKind {
    DataControl,
    Mutter,
}

/// What `auto` means, given what asking the compositor for a data-control protocol
/// gave: only a clear yes is data-control.
pub open spec fn kind_by_probe(probe: Result<bool, String>) -> BackendKind {
    match probe {
        Ok(true) => BackendKind::DataControl,
        _ => BackendKind::Mutter,
    }
}

/// Which backend a [`BackendChoice`] means, probing the compositor only for `auto`. A
/// probe that *errors* resolves to Mutter, which needs no Wayland display.
pub fn resolve_kind<F: FnOnce() -> Result<bool, String>>(choice: BackendChoice, probe: F) -> (r:
    BackendKind)
    requires
        choice == BackendChoice::Auto ==> call_requires(probe, ()),
    ensures
        choice == BackendChoice::DataControl ==> r == BackendKind::DataControl,
        choice == BackendChoice::Mutter ==> r == BackendKind::Mutter,
        choice == BackendChoice::Auto ==> exists|out: Result<bool, String>|
            #[trigger] call_ensures(probe, (), out) && r == kind_by_probe(out),
{
    match choice {
        BackendChoice::DataControl => BackendKind::DataControl,
        BackendChoice::Mutter => BackendKind::Mutter,
        BackendChoice::Auto => match probe() {
            Ok(true) => BackendKind::DataControl,
            Ok(false) => BackendKind::Mutter,
            Err(_) => BackendKind::Mutter,
        },
    }
}

/// What is said of the settings that need the PRIMARY selection, if any is on.
pub open spec fn primary_refusal(sync: bool, link: bool) -> Option<Seq<char>> {
    if sync && link {
        Some(
            "sync_selection and link_selections need"@
                + " the PRIMARY (middle-click) selection, which GNOME does not expose through Mutter's clipboard API; disable "@
                + "them on this host"@,
        )
    } else if sync {
        Some(
            "sync_selection needs"@
                + " the PRIMARY (middle-click) selection, which GNOME does not expose through Mutter's clipboard API; disable "@
                + "it on this host"@,
        )
    } else if link {
        Some(
            "link_selections needs"@
                + " the PRIMARY (middle-click) selection, which GNOME does not expose through Mutter's clipboard API; disable "@
                + "it on this host"@,
        )
    } else {
        None
    }
}

/// What is wrong with running a configuration on a backend: Mutter reaches only
/// CLIPBOARD, and `sync_selection` and `link_selections` both need PRIMARY.
pub open spec fn refusal(cfg: Config, kind: BackendKind) -> Option<Seq<char>> {
    if kind != BackendKind::Mutter {
        None
    } else {
        primary_refusal(
            cfg.sync_selection,
            cfg.link_selections.clipboard_to_selection || cfg.link_selections.selection_to_clipboard,
        )
    }
}

/// Refuses a configuration that the backend cannot honour.
pub fn refuse_primary_features(cfg: &Config, kind: BackendKind) -> (r: Result<(), String>)
    ensures
        match r {
            Ok(()) => refusal(*cfg, kind) is None,
            Err(e) => refusal(*cfg, kind) == Some(e@),
        },
{
    if kind != BackendKind::Mutter {
        return Ok(());
    }
    let sync: bool = cfg.sync_selection;
    let link: bool = cfg.link_selections.clipboard_to_selection
        || cfg.link_selections.selection_to_clipboard;
    if !sync && !link {
        return Ok(());
    }
    let both: bool = sync && link;
    let mut s = if both {
        "sync_selection and link_selections need".to_string()
    } else if sync {
        "sync_selection needs".to_string()
    } else {
        "link_selections needs".to_string()
    };
    s.append(
        " the PRIMARY (middle-click) selection, which GNOME does not expose through Mutter's clipboard API; disable ",
    );
    if both {
        s.append("them on this host");
    } else {
        s.append("it on this host");
    }
    Err(s)
}

impl Backend {
    /// Which backend this is.
    pub open spec fn kind(&self) -> BackendKind {
        match self {
            Backend::Wayland(_) => BackendKind::DataControl,
            Backend::Mutter(_) => BackendKind::Mutter,
        }
    }

    /// The most bytes of an offer.
    pub open spec fn limit(&self) -> usize {
        match self {
            Backend::Wayland(w) => w.limit(),
            Backend::Mutter(m) => m.limit(),
        }
    }

    /// Resolves the choice and builds the backend. `auto` probes the compositor; a forced
    /// choice skips the probe. Refuses a configuration the chosen backend cannot honour.
    pub fn select<F: FnOnce() -> Result<bool, String>>(
        choice: BackendChoice,
        cfg: &Config,
        probe: F,
    ) -> (r: Result<Backend, String>)
        requires
            choice == BackendChoice::Auto ==> call_requires(probe, ()),
        ensures
            exists|kind: BackendKind|
                {
                    &&& choice == BackendChoice::DataControl ==> kind == BackendKind::DataControl
                    &&& choice == BackendChoice::Mutter ==> kind == BackendKind::Mutter
                    &&& choice == BackendChoice::Auto ==> exists|out: Result<bool, String>|
                        #[trigger] call_ensures(probe, (), out) && kind == kind_by_probe(out)
                    &&& match r {
                        Ok(b) => {
                            &&& #[trigger] refusal(*cfg, kind) is None
                            &&& b.kind() == kind
                            &&& b.limit() == cfg.max_payload_size
                        },
                        Err(e) => refusal(*cfg, kind) == Some(e@),
                    }
                },
    {
        let kind = resolve_kind(choice, probe);
        proof {
            let _ = refusal(*cfg, kind);
        }
        match refuse_primary_features(cfg, kind) {
            Err(e) => {
                return Err(e);
            },
            Ok(()) => {},
        }
        match kind {
            BackendKind::DataControl => Ok(
                Backend::Wayland(WaylandClipboard::new(cfg.max_payload_size)),
            ),
            BackendKind::Mutter => Ok(Backend::Mutter(MutterClipboard::new(cfg.max_payload_size))),
        }
    }
}

} // verus!
