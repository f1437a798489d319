//! What nodes exchange: clipboard offers, their content hash, versions and
//! messages.

use crate::digest::{blake3_digest, blake3_hash};
use crate::glob::{eq_ignore_case, folded, same_folded};
use crate::node_id::NodeId;
use crate::offer::{distinct_types, offer_at, offer_len, offer_pairs, offer_types};
use crate::offer::{types_of, Offer, Pair};
use crate::order::{ascending, sort_order};
use crate::text::{decimal, decimal_of, join, join_of, texts};
use std::cmp::Ordering;
use std::sync::Arc;
use vstd::bytes::{spec_u64_to_le_bytes, u64_to_le_bytes};
use vstd::prelude::*;
use vstd::utf8::encode_utf8;

verus! {

/// Wire protocol version. Bumped whenever the on-wire message format changes.
pub const PROTOCOL_VERSION: u32 = 7;

/// The `text/plain` representations, richest first.
pub const TEXT_PLAIN: [&'static str; 2] = ["text/plain;charset=utf-8", "text/plain"];

/// Whether an offered MIME type satisfies a requested one.
pub fn type_matches(offered: &str, requested: &str) -> (r: bool)
    ensures
        r == same_folded(encode_utf8(offered@), encode_utf8(requested@)),
{
    eq_ignore_case(offered.as_bytes(), requested.as_bytes())
}

/// Whether `t` starts with `prefix`, up to ASCII case.
pub open spec fn folded_prefix(t: Seq<u8>, prefix: Seq<u8>) -> bool {
    prefix.len() <= t.len() && same_folded(t.take(prefix.len() as int), prefix)
}

/// Whether `t` starts with `prefix`, up to ASCII case.
fn starts_folded(t: &[u8], prefix: &[u8]) -> (r: bool)
    ensures
        r == folded_prefix(t@, prefix@),
{
    if prefix.len() > t.len() {
        return false;
    }
    let mut i: usize = 0;
    while i < prefix.len()
        invariant
            i <= prefix@.len() <= t@.len(),
            forall|k: int|
                0 <= k < i ==> crate::glob::fold(t@[k]) == crate::glob::fold(#[trigger] prefix@[k]),
        decreases prefix@.len() - i,
    {
        if folded(t[i]) != folded(prefix[i]) {
            proof {
                let head = t@.take(prefix@.len() as int);
                assert(crate::glob::fold(head[i as int]) != crate::glob::fold(prefix@[i as int]));
            }
            return false;
        }
        i += 1;
    }
    proof {
        let head = t@.take(prefix@.len() as int);
        assert forall|k: int| 0 <= k < head.len() implies crate::glob::fold(#[trigger] head[k])
            == crate::glob::fold(prefix@[k]) by {
            assert(head[k] == t@[k]);
        }
    }
    true
}

/// Whether `mime` is textual: the `text/*` family.
pub fn is_text(mime: &str) -> (r: bool)
    ensures
        r == folded_prefix(encode_utf8(mime@), encode_utf8("text/"@)),
{
    starts_folded(mime.as_bytes(), "text/".as_bytes())
}

/// Whether `mime` is a `text/plain` variant (`text/plain`, `text/plain;charset=...`).
pub fn is_text_plain(mime: &str) -> (r: bool)
    ensures
        r == folded_prefix(encode_utf8(mime@), encode_utf8("text/plain"@)),
{
    starts_folded(mime.as_bytes(), "text/plain".as_bytes())
}

/// Which selection.
#[derive(Debug, Clone, Copy, PartialEq, Eq, Hash, Structural)]
pub enum SelectionKind {
    Clipboard,
    Selection,
}

/// The name of a selection.
pub open spec fn kind_name(kind: SelectionKind) -> Seq<char> {
    match kind {
        SelectionKind::Clipboard => "Clipboard"@,
        SelectionKind::Selection => "Selection"@,
    }
}

impl SelectionKind {
    /// Every selection, in the order of [`SelectionKind::index`].
    pub const ALL: [SelectionKind; 2] = [SelectionKind::Clipboard, SelectionKind::Selection];

    /// The name of the selection.
    pub fn name(self) -> (r: &'static str)
        ensures
            r@ == kind_name(self),
    {
        match self {
            SelectionKind::Clipboard => "Clipboard",
            SelectionKind::Selection => "Selection",
        }
    }

    /// This selection's slot in a per-selection array.
    pub fn index(self) -> (r: usize)
        ensures
            r == self.slot(),
    {
        match self {
            SelectionKind::Clipboard => 0,
            SelectionKind::Selection => 1,
        }
    }

    /// This selection's slot in a per-selection array: the clipboard comes first.
    pub open spec fn slot(self) -> int {
        match self {
            SelectionKind::Clipboard => 0,
            SelectionKind::Selection => 1,
        }
    }
}

/// The hybrid-logical-clock value that orders one piece of shared state: the higher
/// stamp wins, and of two equal stamps the larger origin.
#[derive(Debug, Clone, Copy, PartialEq, Eq, Ord, Hash, Structural)]
pub struct Version {
    pub stamp: u64,
    pub origin: NodeId,
}

impl Version {
    /// The version `stamp` of the node `origin`.
    pub fn new(stamp: u64, origin: NodeId) -> (r: Version)
        ensures
            r.stamp == stamp,
            r.origin == origin,
    {
        Version { stamp, origin }
    }
}

/// Whether the version `a` wins over `b`.
pub open spec fn wins_over(a: Version, b: Version) -> bool {
    a.stamp > b.stamp || (a.stamp == b.stamp && a.origin > b.origin)
}

impl PartialOrd for Version {
    fn partial_cmp(&self, other: &Version) -> (r: Option<Ordering>) {
        if self.stamp < other.stamp {
            Some(Ordering::Less)
        } else if self.stamp > other.stamp {
            Some(Ordering::Greater)
        } else if self.origin < other.origin {
            Some(Ordering::Less)
        } else if self.origin > other.origin {
            Some(Ordering::Greater)
        } else {
            Some(Ordering::Equal)
        }
    }
}

impl vstd::std_specs::cmp::PartialOrdSpecImpl for Version {
    open spec fn obeys_partial_cmp_spec() -> bool {
        true
    }

    open spec fn partial_cmp_spec(&self, other: &Version) -> Option<Ordering> {
        if wins_over(*self, *other) {
            Some(Ordering::Greater)
        } else if *self == *other {
            Some(Ordering::Equal)
        } else {
            Some(Ordering::Less)
        }
    }
}

/// Every node that compares two versions reaches the same answer: exactly one wins
/// over the other, unless they are the same.
pub proof fn one_of_two_versions_wins(a: Version, b: Version)
    ensures
        a == b || wins_over(a, b) || wins_over(b, a),
        !(wins_over(a, b) && wins_over(b, a)),
        !wins_over(a, a),
{
}

/// A version that wins over a winner wins.
pub proof fn winning_is_transitive(a: Version, b: Version, c: Version)
    requires
        wins_over(a, b),
        wins_over(b, c),
    ensures
        wins_over(a, c),
{
}

/// What the far end of a connection is.
#[derive(Debug, Clone, Copy, PartialEq, Eq, Structural)]
pub enum PeerRole {
    /// A node. Participates in the mesh: resynced on connect, and a target for
    /// broadcasts.
    Peer,
    /// A `--paste` client. Registered only so its request can be answered.
    Paster,
}

/// What a [`Message::Get`] asks for.
#[derive(Debug, Clone, PartialEq, Eq)]
pub enum GetWant {
    /// Every representation.
    All,
    /// Only this type, matched case-insensitively (`--type`).
    One(String),
    /// No content at all, just the available type names (`--list-types`).
    TypesOnly,
}

/// Why a node has nothing to hand back.
#[derive(Debug, Clone, Copy, PartialEq, Eq, Structural)]
pub enum Unavailable {
    /// The node does not serve that selection at all.
    NotSynced,
    /// The selection genuinely holds nothing.
    Empty,
    /// Content exists but is password-manager-flagged, and `exclude_sensitive` is on.
    Sensitive,
    /// Content exists, but every representation is denied by that node's MIME rules.
    Denied,
    /// Content exists, but everything exceeds that node's `max_payload_size`.
    TooLarge,
    /// The node could not read its own clipboard.
    Unreadable,
}

/// The answer to a [`Message::Get`].
#[derive(Debug, PartialEq)]
pub enum GetResult {
    /// The requested representation(s), in the source's advertise order.
    Offer(Offer),
    /// The available type names, for [`GetWant::TypesOnly`].
    Types(Vec<String>),
    /// The node has content, but not the requested type.
    NotOffered { available: Vec<String> },
    /// Nothing to hand back, and why.
    Unavailable(Unavailable),
}

/// One remembered clipboard, as a listing shows it.
#[derive(Debug, Clone, PartialEq, Eq)]
pub struct HistoryEntry {
    /// The row number, from 1.
    pub index: u32,
    /// The hash of the content.
    pub hash: [u8; 32],
    /// The selection that it came from.
    pub kind: SelectionKind,
    /// How long ago it was remembered.
    pub age_ms: u64,
    /// How many bytes it holds.
    pub bytes: u64,
    /// Its types, with the bytes of each.
    pub types: Vec<(String, u64)>,
    /// The beginning of its text, where it has any.
    pub preview: Option<String>,
}

/// Why a node has no remembered clipboard to hand back.
#[derive(Debug, Clone, PartialEq, Eq)]
pub enum HistoryMiss {
    /// The node keeps no history.
    Disabled,
    /// Nothing was remembered yet.
    Empty,
    /// No entry has that number or id.
    NoSuchEntry { entries: u32 },
    /// Several entries have an id that starts with that.
    Ambiguous { matches: u32 },
    /// The entry does not offer the requested type.
    NotOffered { available: Vec<String> },
    /// The node does not handle the selection that the entry came from.
    NotSynced,
    /// Nothing of the entry passes the node's content filters any more.
    Filtered(Unavailable),
    /// The entry could not be written to the clipboard.
    WriteFailed,
}

/// What a node is asked of its history.
#[derive(Debug, Clone, PartialEq, Eq)]
pub enum HistoryRequest {
    /// What is remembered.
    List,
    /// The content of an entry.
    Get { entry: String, type_: Option<String> },
    /// To put an entry back on the clipboard.
    Restore { entry: String },
}

/// The answer to a [`HistoryRequest`].
#[derive(Debug, PartialEq)]
pub enum HistoryResult {
    /// What is remembered, the latest first.
    List(Vec<HistoryEntry>),
    /// The content of an entry.
    Offer(Offer),
    /// The entry is back on the clipboard; whether it was also sent to the mesh.
    Restored { kind: SelectionKind, broadcast: bool },
    /// Nothing to hand back, and why.
    Failed(HistoryMiss),
}

/// What nodes say to each other.
#[allow(inconsistent_fields)]
#[derive(Debug, PartialEq)]
pub enum Message {
    /// First message on every connection: announces the sender's node ID, the wire
    /// protocol version it speaks, and whether it is a mesh peer or a one-shot paster.
    Hello { node_id: NodeId, protocol_version: u32, role: PeerRole },
    /// Ask for one selection's current content. Answered with [`Message::GetReply`].
    Get { kind: SelectionKind, want: GetWant },
    /// The answer to a [`Message::Get`], echoing the `kind` asked about.
    GetReply { kind: SelectionKind, result: GetResult },
    /// A clipboard update.
    Clip { kind: SelectionKind, hash: [u8; 32], offer: Arc<Offer>, version: Version },
    /// The full MIME-rules file.
    Rules { version: Version, body: String },
    /// Ask about the history. Answered with [`Message::HistoryReply`].
    History { req: HistoryRequest },
    /// The answer to a [`Message::History`].
    HistoryReply { result: HistoryResult },
}

/// One representation as it is hashed: type and bytes, each with its length in
/// front.
pub open spec fn framed(p: Pair) -> Seq<u8> {
    let mime = encode_utf8(p.0);
    spec_u64_to_le_bytes(mime.len() as u64) + mime + spec_u64_to_le_bytes(p.1.len() as u64) + p.1
}

/// The representations as they are hashed, one after the other.
pub open spec fn frames(pairs: Seq<Pair>) -> Seq<u8>
    decreases pairs.len(),
{
    if pairs.len() == 0 {
        Seq::empty()
    } else {
        framed(pairs[0]) + frames(pairs.drop_first())
    }
}

/// Whether `sorted` holds the representations `pairs` in ascending order of their
/// types.
pub open spec fn sorts_pairs(sorted: Seq<Pair>, pairs: Seq<Pair>) -> bool {
    &&& sorted.len() == pairs.len()
    &&& ascending(types_of(sorted))
    &&& distinct_types(sorted)
    &&& forall|p: Pair| #[trigger] sorted.contains(p) <==> pairs.contains(p)
}

/// The representations in ascending order of their types.
pub open spec fn sorted_pairs(pairs: Seq<Pair>) -> Seq<Pair> {
    choose|sorted: Seq<Pair>| sorts_pairs(sorted, pairs)
}

/// The bytes that identify the content of an offer.
pub open spec fn identity_bytes(pairs: Seq<Pair>) -> Seq<u8> {
    frames(sorted_pairs(pairs))
}

/// The content hash of an offer.
pub open spec fn content_digest(pairs: Seq<Pair>) -> Seq<u8> {
    blake3_digest(identity_bytes(pairs))
}

/// Two sorted arrangements of the same representations are the same list.
pub proof fn lemma_sorted_unique(a: Seq<Pair>, b: Seq<Pair>, x: Seq<Pair>, y: Seq<Pair>)
    requires
        sorts_pairs(a, x),
        sorts_pairs(b, y),
        forall|p: Pair| x.contains(p) <==> y.contains(p),
    ensures
        a == b,
{
    let (ta, tb) = (types_of(a), types_of(b));
    assert(crate::order::distinct(ta)) by {
        assert forall|i: int, j: int| 0 <= i < j < ta.len() implies #[trigger] ta[i]
            != #[trigger] ta[j] by {
            assert(a[i].0 != a[j].0);
        }
    }
    assert(crate::order::distinct(tb)) by {
        assert forall|i: int, j: int| 0 <= i < j < tb.len() implies #[trigger] tb[i]
            != #[trigger] tb[j] by {
            assert(b[i].0 != b[j].0);
        }
    }
    assert forall|t: Seq<char>| ta.contains(t) <==> tb.contains(t) by {
        if ta.contains(t) {
            let i = choose|i: int| 0 <= i < ta.len() && ta[i] == t;
            assert(a.contains(a[i]));
            assert(b.contains(a[i]));
            let j = choose|j: int| 0 <= j < b.len() && b[j] == a[i];
            assert(tb[j] == t);
        }
        if tb.contains(t) {
            let i = choose|i: int| 0 <= i < tb.len() && tb[i] == t;
            assert(b.contains(b[i]));
            assert(a.contains(b[i]));
            let j = choose|j: int| 0 <= j < a.len() && a[j] == b[i];
            assert(ta[j] == t);
        }
    }
    crate::order::ascending_is_unique(ta, tb);
    assert forall|i: int| 0 <= i < a.len() implies a[i] == b[i] by {
        assert(ta[i] == tb[i]);
        assert(a.contains(a[i]));
        assert(b.contains(a[i]));
        let j = choose|j: int| 0 <= j < b.len() && b[j] == a[i];
        if i < j {
            assert(b[i].0 != b[j].0);
        } else if j < i {
            assert(b[j].0 != b[i].0);
        }
    }
    assert(a.len() == ta.len() && b.len() == tb.len());
    assert(a =~= b);
}

proof fn lemma_frames_push(pairs: Seq<Pair>, p: Pair)
    ensures
        frames(pairs.push(p)) == frames(pairs) + framed(p),
    decreases pairs.len(),
{
    let all = pairs.push(p);
    if pairs.len() == 0 {
        assert(all.drop_first() =~= Seq::<Pair>::empty());
        assert(frames(all.drop_first()) =~= Seq::<u8>::empty());
        assert(all[0] == p);
        assert(frames(all) =~= framed(p));
        assert(frames(pairs) + framed(p) =~= framed(p));
    } else {
        lemma_frames_push(pairs.drop_first(), p);
        assert(all.drop_first() =~= pairs.drop_first().push(p));
        assert(frames(all) =~= frames(pairs) + framed(p));
    }
}

/// BLAKE3 over the (mime, bytes) pairs, length-prefixed to avoid boundary ambiguity.
/// The pairs are sorted by MIME for hashing only, so two offers with the same content
/// but different order hash equal.
pub fn content_hash(offer: &Offer) -> (r: [u8; 32])
    ensures
        r@ == content_digest(offer_pairs(*offer)),
{
    let ghost pairs = offer_pairs(*offer);
    let n: usize = offer_len(offer);
    let keys = offer_types(offer);
    let order = sort_order(&keys);
    let ghost ts = types_of(pairs);
    let ghost sorted = crate::order::arranged(pairs, order@);
    let mut bytes: Vec<u8> = Vec::new();
    let mut i: usize = 0;
    proof {
        assert(ts.len() == n);
        assert(bytes@ =~= frames(sorted.take(0)));
    }
    while i < order.len()
        invariant
            i <= order@.len(),
            order@.len() == n,
            n == pairs.len(),
            pairs == offer_pairs(*offer),
            crate::order::arrangement(order@, n as nat),
            sorted == crate::order::arranged(pairs, order@),
            bytes@ == frames(sorted.take(i as int)),
        decreases order@.len() - i,
    {
        let at: usize = order[i];
        let (mime, data) = offer_at(offer, at);
        let name = mime.as_str().as_bytes();
        let ghost was = bytes@;
        let name_len = u64_to_le_bytes(name.len() as u64);
        let data_len = u64_to_le_bytes(data.len() as u64);
        bytes.extend_from_slice(name_len.as_slice());
        bytes.extend_from_slice(name);
        bytes.extend_from_slice(data_len.as_slice());
        bytes.extend_from_slice(data.as_slice());
        proof {
            let p = sorted[i as int];
            assert(p == pairs[at as int]);
            assert(p.0 == mime@ && p.1 == data@);
            assert(bytes@ =~= was + framed(p));
            lemma_frames_push(sorted.take(i as int), p);
            assert(sorted.take(i + 1) =~= sorted.take(i as int).push(p));
        }
        i += 1;
    }
    proof {
        assert(sorted.take(sorted.len() as int) =~= sorted);
        assert(keys.len() <= usize::MAX);
        lemma_arranged_sorts(pairs, order@);
        let chosen = sorted_pairs(pairs);
        assert(sorts_pairs(sorted, pairs));
        assert(sorts_pairs(chosen, pairs));
        lemma_sorted_unique(sorted, chosen, pairs, pairs);
    }
    blake3_hash(bytes.as_slice())
}

proof fn lemma_arranged_sorts(pairs: Seq<Pair>, order: Seq<usize>)
    requires
        crate::order::sorts(order, types_of(pairs)),
        distinct_types(pairs),
        pairs.len() <= usize::MAX,
    ensures
        sorts_pairs(crate::order::arranged(pairs, order), pairs),
{
    let sorted = crate::order::arranged(pairs, order);
    let ts = types_of(pairs);
    let st = types_of(sorted);
    assert forall|i: int, j: int| 0 <= i < j < st.len() implies !crate::order::before(
        #[trigger] st[j],
        #[trigger] st[i],
    ) by {
        let (a, b) = (order[i], order[j]);
        assert(st[i] == ts[a as int] && st[j] == ts[b as int]);
    }
    assert forall|i: int, j: int| 0 <= i < j < sorted.len() implies (#[trigger] sorted[i]).0 != (
    #[trigger] sorted[j]).0 by {
        assert(order[i] != order[j]);
        if order[i] < order[j] {
            assert(pairs[order[i] as int].0 != pairs[order[j] as int].0);
        } else {
            assert(pairs[order[j] as int].0 != pairs[order[i] as int].0);
        }
    }
    assert forall|p: Pair| #[trigger] sorted.contains(p) <==> pairs.contains(p) by {
        if sorted.contains(p) {
            let i = choose|i: int| 0 <= i < sorted.len() && sorted[i] == p;
            assert(pairs[order[i] as int] == p);
        }
        if pairs.contains(p) {
            let j = choose|j: int| 0 <= j < pairs.len() && pairs[j] == p;
            assert(order.contains(j as usize));
            let i = choose|i: int| 0 <= i < order.len() && order[i] == j as usize;
            assert(sorted[i] == p);
        }
    }
}

/// Offers with the same representations have the same content hash, whatever their
/// order.
pub proof fn content_hash_ignores_the_order(a: Seq<Pair>, b: Seq<Pair>)
    requires
        distinct_types(a),
        distinct_types(b),
        forall|p: Pair| a.contains(p) <==> b.contains(p),
    ensures
        content_digest(a) == content_digest(b),
{
    lemma_sorting_exists(a);
    lemma_sorting_exists(b);
    lemma_sorted_unique(sorted_pairs(a), sorted_pairs(b), a, b);
}

/// Every offer can be put in order.
pub proof fn lemma_sorting_exists(pairs: Seq<Pair>)
    requires
        distinct_types(pairs),
    ensures
        exists|s: Seq<Pair>| sorts_pairs(s, pairs),
    decreases pairs.len(),
{
    if pairs.len() == 0 {
        assert(sorts_pairs(pairs, pairs));
    } else {
        let last = pairs.last();
        let rest = pairs.drop_last();
        assert(distinct_types(rest)) by {
            assert forall|i: int, j: int| 0 <= i < j < rest.len() implies (#[trigger] rest[i]).0
                != (#[trigger] rest[j]).0 by {
                assert(pairs[i].0 != pairs[j].0);
            }
        }
        lemma_sorting_exists(rest);
        let s = choose|s: Seq<Pair>| sorts_pairs(s, rest);
        assert forall|i: int| 0 <= i < s.len() implies (#[trigger] s[i]).0 != last.0 by {
            assert(s.contains(s[i]));
            assert(rest.contains(s[i]));
            let j = choose|j: int| 0 <= j < rest.len() && rest[j] == s[i];
            assert(pairs[j].0 != pairs[pairs.len() - 1].0);
        }
        lemma_insert_sorted(s, last, s.len() as int);
        let t = choose|t: Seq<Pair>| inserted(t, s, last);
        assert(sorts_pairs(t, pairs)) by {
            assert forall|p: Pair| #[trigger] t.contains(p) <==> pairs.contains(p) by {
                assert(t.contains(p) <==> s.contains(p) || p == last);
                assert(s.contains(p) <==> rest.contains(p));
                if pairs.contains(p) {
                    let i = choose|i: int| 0 <= i < pairs.len() && pairs[i] == p;
                    if i < rest.len() {
                        assert(rest[i] == p);
                    }
                }
                if rest.contains(p) {
                    let i = choose|i: int| 0 <= i < rest.len() && rest[i] == p;
                    assert(pairs[i] == p);
                }
                assert(pairs[pairs.len() - 1] == last);
            }
        }
    }
}

/// Whether `t` is the sorted list `s` with `p` put in its place.
spec fn inserted(t: Seq<Pair>, s: Seq<Pair>, p: Pair) -> bool {
    &&& t.len() == s.len() + 1
    &&& ascending(types_of(t))
    &&& distinct_types(t)
    &&& forall|q: Pair| #[trigger] t.contains(q) <==> s.contains(q) || q == p
}

proof fn lemma_insert_sorted(s: Seq<Pair>, p: Pair, at: int)
    requires
        0 <= at <= s.len(),
        ascending(types_of(s)),
        distinct_types(s),
        forall|i: int| 0 <= i < s.len() ==> (#[trigger] s[i]).0 != p.0,
        forall|i: int| at <= i < s.len() ==> crate::order::before(p.0, (#[trigger] s[i]).0),
    ensures
        exists|t: Seq<Pair>| inserted(t, s, p),
    decreases at,
{
    let ts = types_of(s);
    if at > 0 && crate::order::before(p.0, s[at - 1].0) {
        lemma_insert_sorted(s, p, at - 1);
    } else {
        let t = s.insert(at, p);
        let tt = types_of(t);
        assert forall|i: int| 0 <= i < t.len() implies #[trigger] t[i] == (if i < at {
            s[i]
        } else if i == at {
            p
        } else {
            s[i - 1]
        }) by {}
        assert forall|i: int, j: int| 0 <= i < j < t.len() implies (#[trigger] t[i]).0 != (
        #[trigger] t[j]).0 by {
            if i < at && j < at {
                assert(s[i].0 != s[j].0);
            } else if i < at && j > at {
                assert(s[i].0 != s[j - 1].0);
            } else if i > at {
                assert(s[i - 1].0 != s[j - 1].0);
            }
        }
        assert forall|i: int, j: int| 0 <= i < j < tt.len() implies !crate::order::before(
            #[trigger] tt[j],
            #[trigger] tt[i],
        ) by {
            assert(tt[i] == t[i].0 && tt[j] == t[j].0);
            if i == at {
                let b = s[j - 1].0;
                assert(crate::order::before(p.0, b));
                if crate::order::before(b, p.0) {
                    crate::order::before_is_transitive(p.0, b, p.0);
                    crate::order::before_is_irreflexive(p.0);
                }
            } else if j == at {
                let a = s[i].0;
                let last = s[at - 1].0;
                if crate::order::before(p.0, a) {
                    if i < at - 1 {
                        assert(ts[i] == a && ts[at - 1] == last);
                        crate::order::before_is_total(last, a);
                        if crate::order::before(a, last) {
                            crate::order::before_is_transitive(p.0, a, last);
                        }
                    }
                }
            } else {
                let x = if i < at {
                    i
                } else {
                    i - 1
                };
                let y = if j < at {
                    j
                } else {
                    j - 1
                };
                assert(ts[x] == tt[i] && ts[y] == tt[j]);
            }
        }
        assert forall|q: Pair| #[trigger] t.contains(q) <==> s.contains(q) || q == p by {
            if t.contains(q) {
                let i = choose|i: int| 0 <= i < t.len() && t[i] == q;
                if i < at {
                    assert(s[i] == q);
                } else if i > at {
                    assert(s[i - 1] == q);
                }
            }
            if s.contains(q) {
                let i = choose|i: int| 0 <= i < s.len() && s[i] == q;
                if i < at {
                    assert(t[i] == q);
                } else {
                    assert(t[i + 1] == q);
                }
            }
            assert(t[at] == p);
        }
        assert(inserted(t, s, p));
    }
}

/// Whether the lengths of a list of representations can be written in front of them.
pub open spec fn lengths_fit(pairs: Seq<Pair>) -> bool {
    forall|i: int|
        0 <= i < pairs.len() ==> {
            &&& encode_utf8((#[trigger] pairs[i]).0).len() <= u64::MAX
            &&& pairs[i].1.len() <= u64::MAX
        }
}

/// Lists of representations that are hashed from the same bytes are the same: no
/// boundary can shift between a type and its bytes, or between two representations.
pub proof fn frames_are_unambiguous(a: Seq<Pair>, b: Seq<Pair>)
    requires
        lengths_fit(a),
        lengths_fit(b),
        frames(a) == frames(b),
    ensures
        a == b,
    decreases a.len(),
{
    vstd::bytes::lemma_auto_spec_u64_to_from_le_bytes();
    if a.len() == 0 {
        if b.len() > 0 {
            assert(frames(b).len() > 0);
        }
        assert(a =~= b);
    } else if b.len() == 0 {
        assert(frames(a).len() > 0);
    } else {
        let (p, q) = (a[0], b[0]);
        let (fa, fb) = (frames(a), frames(b));
        let (m, n) = (encode_utf8(p.0), encode_utf8(q.0));
        let (ra, rb) = (frames(a.drop_first()), frames(b.drop_first()));
        let (la, lb) = (
            spec_u64_to_le_bytes(m.len() as u64),
            spec_u64_to_le_bytes(n.len() as u64),
        );
        let (da, db) = (
            spec_u64_to_le_bytes(p.1.len() as u64),
            spec_u64_to_le_bytes(q.1.len() as u64),
        );
        assert(fa =~= la + m + da + p.1 + ra);
        assert(fb =~= lb + n + db + q.1 + rb);
        assert(fa.subrange(0, 8) =~= la);
        assert(fb.subrange(0, 8) =~= lb);
        assert(m.len() as u64 == n.len() as u64);
        let k = 8 + m.len() as int;
        assert(fa.subrange(8, k) =~= m);
        assert(fb.subrange(8, k) =~= n);
        vstd::utf8::encode_utf8_decode_utf8(p.0);
        vstd::utf8::encode_utf8_decode_utf8(q.0);
        assert(p.0 == q.0);
        assert(fa.subrange(k, k + 8) =~= da);
        assert(fb.subrange(k, k + 8) =~= db);
        assert(p.1.len() as u64 == q.1.len() as u64);
        let e = k + 8 + p.1.len() as int;
        assert(fa.subrange(k + 8, e) =~= p.1);
        assert(fb.subrange(k + 8, e) =~= q.1);
        assert(fa.skip(e) =~= ra);
        assert(fb.skip(e) =~= rb);
        assert(lengths_fit(a.drop_first())) by {
            assert forall|i: int| 0 <= i < a.drop_first().len() implies encode_utf8(
                (#[trigger] a.drop_first()[i]).0,
            ).len() <= u64::MAX && a.drop_first()[i].1.len() <= u64::MAX by {
                assert(a.drop_first()[i] == a[i + 1]);
            }
        }
        assert(lengths_fit(b.drop_first())) by {
            assert forall|i: int| 0 <= i < b.drop_first().len() implies encode_utf8(
                (#[trigger] b.drop_first()[i]).0,
            ).len() <= u64::MAX && b.drop_first()[i].1.len() <= u64::MAX by {
                assert(b.drop_first()[i] == b[i + 1]);
            }
        }
        frames_are_unambiguous(a.drop_first(), b.drop_first());
        assert(a =~= seq![p] + a.drop_first());
        assert(b =~= seq![q] + b.drop_first());
    }
}

/// Offers that are hashed from the same bytes hold the same representations.
pub proof fn identity_bytes_identify_the_content(a: Seq<Pair>, b: Seq<Pair>)
    requires
        distinct_types(a),
        distinct_types(b),
        lengths_fit(a),
        lengths_fit(b),
        identity_bytes(a) == identity_bytes(b),
    ensures
        forall|p: Pair| a.contains(p) <==> b.contains(p),
{
    lemma_sorting_exists(a);
    lemma_sorting_exists(b);
    let (sa, sb) = (sorted_pairs(a), sorted_pairs(b));
    assert(sorts_pairs(sa, a) && sorts_pairs(sb, b));
    assert(lengths_fit(sa)) by {
        assert forall|i: int| 0 <= i < sa.len() implies encode_utf8((#[trigger] sa[i]).0).len()
            <= u64::MAX && sa[i].1.len() <= u64::MAX by {
            assert(sa.contains(sa[i]));
            assert(a.contains(sa[i]));
            let j = choose|j: int| 0 <= j < a.len() && a[j] == sa[i];
            assert(encode_utf8(a[j].0).len() <= u64::MAX);
        }
    }
    assert(lengths_fit(sb)) by {
        assert forall|i: int| 0 <= i < sb.len() implies encode_utf8((#[trigger] sb[i]).0).len()
            <= u64::MAX && sb[i].1.len() <= u64::MAX by {
            assert(sb.contains(sb[i]));
            assert(b.contains(sb[i]));
            let j = choose|j: int| 0 <= j < b.len() && b[j] == sb[i];
            assert(encode_utf8(b[j].0).len() <= u64::MAX);
        }
    }
    frames_are_unambiguous(sa, sb);
    assert forall|p: Pair| a.contains(p) <==> b.contains(p) by {
        assert(sa.contains(p) <==> a.contains(p));
        assert(sb.contains(p) <==> b.contains(p));
    }
}

/// An [`Offer`] together with its [`content_hash`], computed once at construction.
/// The offer is immutable behind this type, and shared.
#[derive(Debug, PartialEq, Eq)]
pub struct Hashed {
    offer: Arc<Offer>,
    hash: [u8; 32],
}

impl View for Hashed {
    type V = Seq<Pair>;

    closed spec fn view(&self) -> Seq<Pair> {
        offer_pairs(*self.offer)
    }
}

/// `Arc::unwrap_or_clone`: the shared offer itself, or a copy where it is still
/// shared.
#[verifier::external_body]
fn unshared(offer: Arc<Offer>) -> (r: Offer)
    ensures
        offer_pairs(r) == offer_pairs(*offer),
{
    Arc::unwrap_or_clone(offer)
}

impl Hashed {
    /// The hash is that of the offer.
    #[verifier::type_invariant]
    spec fn inv(self) -> bool {
        self.hash@ == content_digest(offer_pairs(*self.offer))
    }

    /// Hashes an offer.
    pub fn new(offer: Offer) -> (r: Hashed)
        ensures
            r@ == offer_pairs(offer),
    {
        Hashed::from_arc(Arc::new(offer))
    }

    /// Hashes content that is already shared.
    pub fn from_arc(offer: Arc<Offer>) -> (r: Hashed)
        ensures
            r@ == offer_pairs(*offer),
    {
        let hash = content_hash(&offer);
        Hashed { offer, hash }
    }

    /// The content hash.
    pub fn hash(&self) -> (r: [u8; 32])
        ensures
            r@ == content_digest(self@),
    {
        proof {
            use_type_invariant(self);
        }
        self.hash
    }

    /// The content.
    pub fn offer(&self) -> (r: &Offer)
        ensures
            offer_pairs(*r) == self@,
    {
        &self.offer
    }

    /// The shared offer.
    pub fn into_arc(self) -> (r: Arc<Offer>)
        ensures
            offer_pairs(*r) == self@,
    {
        self.offer
    }

    /// Takes ownership of the map to rebuild it.
    pub fn into_offer(self) -> (r: Offer)
        ensures
            offer_pairs(r) == self@,
    {
        unshared(self.offer)
    }

    /// Whether there is no representation.
    pub fn is_empty(&self) -> (r: bool)
        ensures
            r == (self@.len() == 0),
    {
        offer_len(&self.offer) == 0
    }
}

/// `n` divided by `d`, rounded to the nearest integer, ties to the even one.
pub open spec fn round_half_even(n: nat, d: nat) -> nat
    recommends
        d > 0,
{
    let q = n / d;
    let r = n % d;
    if 2 * r < d || (2 * r == d && q % 2 == 0) {
        q
    } else {
        q + 1
    }
}

/// How far apart the 53-bit floating point numbers around `n` are.
pub open spec fn spacing(n: nat) -> nat
    decreases n,
{
    if n < 0x20_0000_0000_0000 {
        1
    } else {
        2 * spacing(n / 2)
    }
}

/// `n` as the nearest number of 53 bits, ties to the even one.
pub open spec fn nearest_float(n: nat) -> nat {
    round_half_even(n, spacing(n)) * spacing(n)
}

/// The bytes in the unit `k`: KiB, MiB, GiB or TiB.
pub open spec fn unit_bytes(k: nat) -> nat {
    if k == 0 {
        1024
    } else if k == 1 {
        1024 * 1024
    } else if k == 2 {
        1024 * 1024 * 1024
    } else {
        1024 * 1024 * 1024 * 1024
    }
}

/// The name of the unit `k`.
pub open spec fn unit_name(k: nat) -> Seq<char> {
    if k == 0 {
        " KiB"@
    } else if k == 1 {
        " MiB"@
    } else if k == 2 {
        " GiB"@
    } else {
        " TiB"@
    }
}

/// The unit to show `n` bytes in, from the unit `k` on: the first in which `n` does
/// not round to 1024.0 or more, or the last.
pub open spec fn unit_from(n: nat, k: nat) -> nat
    decreases 3 - k,
{
    if k < 3 && 20 * n >= 20479 * unit_bytes(k) {
        unit_from(n, k + 1)
    } else {
        k
    }
}

/// A byte count in human-friendly units: as a number of 53 bits, with one decimal.
pub open spec fn human(n: nat) -> Seq<char> {
    if n < 1024 {
        decimal(n) + " B"@
    } else {
        let v = nearest_float(n);
        let k = unit_from(v, 0);
        let tenths = round_half_even(10 * v, unit_bytes(k));
        decimal(tenths / 10) + "."@ + decimal(tenths % 10) + unit_name(k)
    }
}

fn rounded_half_even(n: u128, d: u128) -> (r: u128)
    requires
        0 < d,
        d <= 0x1_0000_0000_0000_0000,
        n < 0x1_0000_0000_0000_0000_0000,
    ensures
        r == round_half_even(n as nat, d as nat),
        r <= n + 1,
{
    let q: u128 = n / d;
    let rest: u128 = n % d;
    proof {
        assert(rest < d);
        assert(q <= n) by (nonlinear_arith)
            requires
                q == n / d,
                d > 0,
        ;
    }
    if 2 * rest < d || (2 * rest == d && q % 2 == 0) {
        q
    } else {
        q + 1
    }
}

/// How far apart the 53-bit floating point numbers around `n` are.
fn spacing_of(n: u64) -> (r: u128)
    ensures
        r == spacing(n as nat),
        0 < r <= 4096,
        n < 0x20_0000_0000_0000 ==> r == 1,
        n >= 0x20_0000_0000_0000 ==> r * 0x10_0000_0000_0000 <= n,
    decreases n,
{
    if n < 0x20_0000_0000_0000 {
        1
    } else {
        let half: u128 = spacing_of(n / 2);
        proof {
            if n / 2 < 0x20_0000_0000_0000 {
                assert(half == 1);
            } else {
                assert(half * 0x10_0000_0000_0000 <= n / 2);
                assert(half <= 2048) by (nonlinear_arith)
                    requires
                        half * 0x10_0000_0000_0000 <= n / 2,
                        n <= 0xffff_ffff_ffff_ffff,
                ;
            }
        }
        2 * half
    }
}

/// Renders a byte count in human-friendly units: "269 B", "70.4 KiB", "8.0 MiB".
pub fn human_bytes(n: usize) -> (s: String)
    ensures
        s@ == human(n as nat),
{
    if n < 1024 {
        let mut s = decimal_of(n as u128);
        s.append(" B");
        return s;
    }
    let step: u128 = spacing_of(n as u64);
    let count: u128 = rounded_half_even(n as u128, step);
    proof {
        assert(count * step <= (n + 1) * 4096) by (nonlinear_arith)
            requires
                count <= n + 1,
                0 < step <= 4096,
        ;
    }
    let v: u128 = count * step;
    let mut unit: u128 = 1024;
    let mut k: u8 = 0;
    while k < 3 && 20 * v >= 20479 * unit
        invariant
            k <= 3,
            unit == unit_bytes(k as nat),
            v <= (n + 1) * 4096,
            n <= 0xffff_ffff_ffff_ffff,
            unit_from(v as nat, 0) == unit_from(v as nat, k as nat),
        decreases 3 - k,
    {
        unit = unit * 1024;
        k += 1;
    }
    let tenths: u128 = rounded_half_even(10 * v, unit);
    let mut s = decimal_of(tenths / 10);
    s.append(".");
    s.append(decimal_of(tenths % 10).as_str());
    if k == 0 {
        s.append(" KiB");
    } else if k == 1 {
        s.append(" MiB");
    } else if k == 2 {
        s.append(" GiB");
    } else {
        s.append(" TiB");
    }
    s
}

/// The `mime=size` entries of an offer.
pub open spec fn described(pairs: Seq<Pair>) -> Seq<Seq<char>> {
    pairs.map_values(|p: Pair| p.0 + "="@ + human(p.1.len()))
}

/// Compact `mime=size, mime=size` rendering of an offer for log lines, in the offer's
/// order.
pub fn describe_offer(offer: &Offer) -> (s: String)
    ensures
        s@ == join(described(offer_pairs(*offer)), ", "@),
{
    let n: usize = offer_len(offer);
    let mut parts: Vec<String> = Vec::new();
    let mut i: usize = 0;
    while i < n
        invariant
            i <= n,
            n == offer_pairs(*offer).len(),
            parts@.len() == i,
            forall|k: int|
                0 <= k < i ==> (#[trigger] parts@[k])@ == described(offer_pairs(*offer))[k],
        decreases n - i,
    {
        let (mime, data) = offer_at(offer, i);
        let mut s = mime.clone();
        s.append("=");
        s.append(human_bytes(data.len()).as_str());
        parts.push(s);
        i += 1;
    }
    proof {
        assert(texts(parts@) =~= described(offer_pairs(*offer)));
    }
    join_of(&parts, ", ")
}

} // verus!
