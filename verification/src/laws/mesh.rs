//! The mesh: who is a peer, who is reached, how nodes meet, and how content is identified.

use crate::backoff::{next_delay, restart_delay, Nanos};
use crate::config::Config;
use crate::mesh::{peer_conn, without, Conn, Mesh, Registered};
use crate::node::{bind_failure, spawn_node, DialAction, DialEnd, DialEvent, Dialer, Inbound, NodeHandle};
use crate::node::{dial_pause, HEALTHY, MAX_INBOUND_CONNECTIONS};
use crate::node_id::NodeId;
use crate::offer::{distinct_types, offer_pairs, types_of, Offer, Pair};
use crate::order::{ascending, before};
use crate::peer::{check_protocol_version, flatten, hello, meet, run_connection, ConnAction, ConnError};
use crate::peer::{max_message, ConnEvent, ConnFault, ConnPhase, Joined};
use crate::peer::SelfConnection;
use crate::protocol::{PeerRole, SelectionKind, Version};
use crate::protocol::{content_hash, describe_offer, described, human};
use crate::protocol::{identity_bytes, sorted_pairs, sorts_pairs, type_matches, wins_over, Message};
use crate::protocol::{is_text, is_text_plain, Hashed};
use crate::text::{has_prefix, join, texts};
use std::cmp::Ordering;
use std::sync::Arc;
use vstd::bytes::spec_u64_to_le_bytes;
use vstd::prelude::*;
use vstd::std_specs::cmp::PartialOrdSpec;
use vstd::utf8::encode_utf8;

verus! {

/// A broadcast to a node goes over the oldest connection as a peer; pasters do not count.
pub proof fn a_broadcast_goes_over_the_oldest_peer(a: Seq<Conn>, c: Conn, b: Seq<Conn>)
    requires
        forall|k: int| 0 <= k < a.len() ==> (#[trigger] a[k]).role != PeerRole::Peer,
    ensures
        c.role == PeerRole::Peer ==> peer_conn(a + seq![c] + b) == Some(c.id),
        peer_conn(a) is None,
    decreases a.len(),
{
    let all = a + seq![c] + b;
    if a.len() == 0 {
        assert(all[0] == c);
    } else {
        let rest = a.skip(1);
        assert(a[0].role != PeerRole::Peer);
        assert forall|k: int| 0 <= k < rest.len() implies (#[trigger] rest[k]).role
            != PeerRole::Peer by {
            assert(a[k + 1].role != PeerRole::Peer);
        }
        a_broadcast_goes_over_the_oldest_peer(rest, c, b);
        assert(all.skip(1) =~= rest + seq![c] + b);
        assert(all[0] == a[0]);
    }
}

/// A message to a node goes over its oldest connection, if it has one.
pub proof fn a_message_goes_over_the_oldest_connection(mesh: &Mesh, peer: NodeId, r: Option<u64>)
    requires
        call_ensures(Mesh::send_to, (mesh, peer), r),
    ensures
        mesh.conns(peer).len() == 0 ==> r is None,
        mesh.conns(peer).len() > 0 ==> r == Some(mesh.conns(peer)[0].id),
{
}

/// Unregistering a connection takes that one away and leaves the others in their order.
pub proof fn only_that_connection_is_taken_away(a: Seq<Conn>, c: Conn, b: Seq<Conn>, id: u64)
    ensures
        without(a + seq![c] + b, id) == without(a, id) + (if c.id == id {
            Seq::empty()
        } else {
            seq![c]
        }) + without(b, id),
        without(Seq::empty(), id).len() == 0,
    decreases b.len(),
{
    let all = a + seq![c] + b;
    let mid = if c.id == id {
        Seq::empty()
    } else {
        seq![c]
    };
    if b.len() == 0 {
        assert(all.drop_last() =~= a);
        assert(without(all, id) =~= without(a, id) + mid + without(b, id));
    } else {
        only_that_connection_is_taken_away(a, c, b.drop_last(), id);
        assert(all.drop_last() =~= a + seq![c] + b.drop_last());
        assert(all.last() == b.last());
        assert(without(all, id) =~= without(a, id) + mid + without(b, id));
    }
}

/// A node that registers a connection as a peer is reached by broadcasts, once, over its
/// oldest such connection; it has joined if it had none before. A paster is not reached.
pub proof fn a_registered_peer_is_reached(
    mesh: &mut Mesh,
    remote: NodeId,
    role: PeerRole,
    r: Registered,
    targets: Vec<(NodeId, u64)>,
)
    requires
        old(mesh).wf(),
        call_ensures(Mesh::register, (mesh, remote, role), r),
        call_ensures(Mesh::broadcast, (&*final(mesh),), targets),
    ensures
        r.joined <==> role == PeerRole::Peer && peer_conn(old(mesh).conns(remote)) is None,
        r.joined ==> targets@.contains((remote, r.id)),
        peer_conn(old(mesh).conns(remote)) matches Some(id) ==> targets@.contains((remote, id)),
        role != PeerRole::Peer && peer_conn(old(mesh).conns(remote)) is None ==> forall|id: u64|
            !#[trigger] targets@.contains((remote, id)),
        final(mesh).conns(remote) == old(mesh).conns(remote).push((Conn { id: r.id, role })),
        forall|p: NodeId|
            p != remote ==> (#[trigger] final(mesh).conns(p)) == old(mesh).conns(p),
{
    let was = old(mesh).conns(remote);
    let c = Conn { id: r.id, role };
    lemma_pushed(was, c);
    let m = *final(mesh);
    assert forall|id: u64| #[trigger] targets@.contains((remote, id)) <==> peer_conn(
        m.conns(remote),
    ) == Some(id) by {
        m.a_broadcast_reaches_each_peer_once(remote, id);
    }
}

proof fn lemma_pushed(conns: Seq<Conn>, c: Conn)
    ensures
        peer_conn(conns.push(c)) == (match peer_conn(conns) {
            Some(id) => Some(id),
            None => if c.role == PeerRole::Peer {
                Some(c.id)
            } else {
                None
            },
        }),
    decreases conns.len(),
{
    let all = conns.push(c);
    reveal_with_fuel(peer_conn, 2);
    if conns.len() == 0 {
        assert(all[0] == c);
        assert(all.skip(1) =~= Seq::<Conn>::empty());
    } else {
        assert(all[0] == conns[0]);
        assert(all.skip(1) =~= conns.skip(1).push(c));
        lemma_pushed(conns.skip(1), c);
    }
}

/// A connection that is unregistered again leaves the table as it was: every node has the
/// connections that it had.
pub proof fn a_connection_leaves_no_trace(
    a: &mut Mesh,
    remote: NodeId,
    role: PeerRole,
    r: Registered,
    b: &mut Mesh,
    gone: bool,
    p: NodeId,
)
    requires
        old(a).wf(),
        call_ensures(Mesh::register, (a, remote, role), r),
        *old(b) == *final(a),
        call_ensures(Mesh::unregister, (b, remote, r.id), gone),
    ensures
        final(b).conns(p) == old(a).conns(p),
        gone <==> old(a).conns(remote).len() == 0,
        final(b).own() == old(a).own(),
{
    let was = old(a).conns(remote);
    let c = Conn { id: r.id, role };
    assert forall|k: int| 0 <= k < was.len() implies (#[trigger] was[k]).id != c.id by {
        assert(was[k].id < r.id);
    }
    crate::mesh::unregistering_undoes_registering(was, c);
}

/// A node that greets another is met as what it is: by every node but itself, which takes it for
/// a connection to itself.
pub proof fn a_greeting_is_met(
    own: NodeId,
    role: PeerRole,
    m: Message,
    other: NodeId,
    r: Result<(NodeId, PeerRole), ConnError>,
)
    requires
        call_ensures(hello, (own, role), m),
        call_ensures(meet, (other, &m), r),
    ensures
        other != own ==> r == Ok::<(NodeId, PeerRole), ConnError>((own, role)),
        other == own ==> (r matches Err(e) && e@ == ConnFault::SelfConnection),
{
}

/// Nobody is met but by a greeting in the same version of the protocol.
pub proof fn only_a_greeting_is_met(
    own: NodeId,
    m: Message,
    r: Result<(NodeId, PeerRole), ConnError>,
    version: u32,
    v: Result<(), String>,
)
    requires
        call_ensures(meet, (own, &m), r),
        call_ensures(check_protocol_version, (version,), v),
    ensures
        v is Ok <==> version == 7,
        r is Ok ==> m is Hello,
        m matches Message::Hello { node_id, protocol_version, role } ==> {
            &&& protocol_version != 7 ==> (r matches Err(e) && e@ is Failed)
            &&& protocol_version == 7 && node_id != own ==> r == Ok::<(NodeId, PeerRole), ConnError>(
                (node_id, role),
            )
        },
{
}

/// A connection that greets is registered and runs; what comes over it is handed on as it is,
/// under the name of the node; and when it ends it is unregistered.
pub proof fn a_connection_runs_and_ends(
    a: &mut Mesh,
    remote: NodeId,
    role: PeerRole,
    r: (ConnPhase, ConnAction),
    b: &mut Mesh,
    m: Message,
    s: (ConnPhase, ConnAction),
    c: &mut Mesh,
    how: Joined,
    t: (ConnPhase, ConnAction),
    p: NodeId,
)
    requires
        old(a).wf(),
        remote != old(a).own(),
        call_ensures(
            run_connection,
            (
                a,
                ConnPhase::Greeting,
                ConnEvent::First(
                    Message::Hello { node_id: remote, protocol_version: 7, role },
                ),
            ),
            r,
        ),
        *old(b) == *final(a),
        call_ensures(run_connection, (b, r.0, ConnEvent::Inbound(m)), s),
        *old(c) == *final(b),
        call_ensures(run_connection, (c, s.0, ConnEvent::Ended(how)), t),
        forall|k: int|
            0 <= k < old(a).conns(remote).len() ==> (#[trigger] old(a).conns(remote)[k]).id
                < old(a).next(),
    ensures
        r.1 is Run,
        s.1 == ConnAction::Deliver(remote, m),
        t.0 is Over,
        final(b).conns(remote).len() == old(a).conns(remote).len() + 1,
        final(b).conns(remote).last().role == role,
        final(c).conns(p) == old(a).conns(p),
        how is Cancelled ==> (t.1 matches ConnAction::End(e) && e is Ok),
        how matches Joined::Done(Ok(_)) ==> (t.1 matches ConnAction::End(e) && e is Ok),
        how is Panicked ==> (t.1 matches ConnAction::End(e) && e is Err),
        how matches Joined::Done(Err(_)) ==> (t.1 matches ConnAction::End(e) && e is Err),
{
    let was = old(a).conns(remote);
    let conn = Conn { id: old(a).next(), role };
    assert forall|k: int| 0 <= k < was.len() implies (#[trigger] was[k]).id != conn.id by {
        assert(was[k].id < old(a).next());
    }
    crate::mesh::unregistering_undoes_registering(was, conn);
}

/// A connection that does not greet in time, or fails before it does, is over, and nothing is
/// registered.
pub proof fn a_failed_greeting_registers_nothing(
    mesh: &mut Mesh,
    event: ConnEvent,
    r: (ConnPhase, ConnAction),
)
    requires
        call_ensures(run_connection, (mesh, ConnPhase::Greeting, event), r),
        event is TimedOut || event is Failed || event is Dropped || (event matches ConnEvent::First(
            m,
        ) && !(m is Hello)),
    ensures
        r.0 is Over,
        *final(mesh) == *old(mesh),
        !(event is Dropped) ==> (r.1 matches ConnAction::End(e) && e is Err),
{
}

/// How a task ended is what is told of it: only an error or a panic is a failure.
pub proof fn only_a_failure_is_told(j: Joined, r: Result<(), String>)
    requires
        call_ensures(flatten, (j,), r),
    ensures
        r is Err <==> j is Panicked || (j matches Joined::Done(d) && d is Err),
        j matches Joined::Done(Err(e)) ==> (r matches Err(f) && f@ == e@),
{
}

/// A message may be as large as a payload, with room for how it is encoded.
pub proof fn a_payload_fits_a_message(max_payload: usize, r: usize)
    requires
        call_ensures(max_message, (max_payload,), r),
    ensures
        r == max_payload + 65536,
{
}

/// A node takes inbound connections up to its limit, and one more for each that was closed.
pub proof fn inbound_connections_are_limited(a: &mut Inbound, taken: bool, b: &mut Inbound)
    requires
        call_ensures(Inbound::take, (a,), taken),
        call_ensures(Inbound::release, (b,), ()),
    ensures
        taken <==> old(a).open() < 64,
        taken ==> final(a).open() == old(a).open() + 1,
        !taken ==> final(a).open() == old(a).open(),
        final(b).open() == old(b).open() - 1,
{
}

/// A peer that cannot be reached is dialed again after a pause, which doubles up to five
/// seconds, with up to half of it more by chance; only the first failure of a streak is warned
/// of.
pub proof fn an_unreachable_peer_is_dialed_again(d: &mut Dialer, r: DialAction)
    requires
        call_ensures(Dialer::dial_loop, (d, DialEvent::Unreachable), r),
        1_000_000_000 <= old(d).backoff() <= 5_000_000_000,
    ensures
        r matches DialAction::Rest { wait, warn } && {
            &&& old(d).backoff() <= wait
            &&& 2 * wait <= 3 * old(d).backoff()
            &&& warn <==> !old(d).failing()
        },
        final(d).failing(),
        2 * old(d).backoff() <= 5_000_000_000 ==> final(d).backoff() == 2 * old(d).backoff(),
        2 * old(d).backoff() > 5_000_000_000 ==> final(d).backoff() == 5_000_000_000,
{
}

/// A connection that ends is dialed again, after the shortest pause if it had lived for half a
/// minute; one to the node itself is not.
pub proof fn an_ended_connection_is_dialed_again(
    d: &mut Dialer,
    end: DialEnd,
    lived: Nanos,
    r: DialAction,
)
    requires
        call_ensures(Dialer::dial_loop, (d, DialEvent::Ended { end, lived }), r),
    ensures
        r is GiveUp <==> end == DialEnd::SelfConnection,
        end != DialEnd::SelfConnection && lived >= 30_000_000_000 ==> (r matches DialAction::Rest {
            wait,
            warn,
        } && 1_000_000_000 <= wait <= 1_500_000_000 && !warn) && final(d).backoff()
            == 2_000_000_000,
        end != DialEnd::SelfConnection && lived < 30_000_000_000 ==> (r matches DialAction::Rest {
            wait,
            warn,
        } && old(d).backoff() <= wait && 2 * wait <= 3 * old(d).backoff() && !warn),
{
}

/// After the pause the peer is dialed, and once it is reached the connection runs and the next
/// failure is warned of again.
pub proof fn a_reached_peer_is_run(a: &mut Dialer, r: DialAction, b: &mut Dialer, s: DialAction)
    requires
        call_ensures(Dialer::dial_loop, (a, DialEvent::Rested), r),
        call_ensures(Dialer::dial_loop, (b, DialEvent::Connected), s),
    ensures
        r is Dial,
        s is Run,
        !final(b).failing(),
        final(b).backoff() == old(b).backoff(),
{
}

/// What fails is restarted after a delay that doubles from one second up to half a minute, and
/// starts over after a run of five seconds.
pub proof fn restarts_slow_down(prev: Nanos, ran_for: Nanos, r: Nanos)
    requires
        call_ensures(restart_delay, (prev, ran_for), r),
    ensures
        ran_for >= 5_000_000_000 ==> r == 1_000_000_000,
        ran_for < 5_000_000_000 && 2 * prev <= 30_000_000_000 ==> r == 2 * prev,
        ran_for < 5_000_000_000 && 2 * prev > 30_000_000_000 ==> r == 30_000_000_000,
{
}

/// The same with other bounds.
pub proof fn delays_double_up_to_the_limit(
    prev: Nanos,
    ran_for: Nanos,
    min: Nanos,
    max: Nanos,
    stable_after: Nanos,
    r: Nanos,
)
    requires
        call_ensures(next_delay, (prev, ran_for, min, max, stable_after), r),
    ensures
        ran_for >= stable_after ==> r == min,
        ran_for < stable_after ==> r <= max && (r == 2 * prev || (r == max && 2 * prev > max)),
{
}

/// A node listens where its config says, dials the peers that it lists, and starts without
/// connections.
pub proof fn a_node_starts_as_configured(cfg: &Config, r: NodeHandle, p: NodeId)
    requires
        call_ensures(spawn_node, (cfg,), r),
    ensures
        r.listen@ == cfg.listen@,
        texts(r.peers@) == texts(cfg.peers@),
        r.mesh.conns(p).len() == 0,
        r.inbound.open() == 0,
{
}

/// Why a node cannot listen names the address; and where it is in use, how to find who has it.
pub proof fn a_failed_bind_names_the_address(
    listen: &str,
    in_use: bool,
    cause: &str,
    r: String,
)
    requires
        call_ensures(bind_failure, (listen, in_use, cause), r),
    ensures
        exists|x: Seq<char>, y: Seq<char>| r@ == #[trigger] (x + listen@ + y),
        !in_use ==> crate::text::has_suffix(r@, ": "@ + cause@),
        in_use ==> exists|x: Seq<char>, y: Seq<char>|
            r@ == #[trigger] (x + ("sport = :"@ + crate::node::port_text(listen@)) + y),
{
    if in_use {
        let a = ": address already in use. Another process is bound to this port — most likely another clipmesh instance. Check: `ss -tlnp 'sport = :"@;
        let z = "'`, `systemctl --user status clipmesh`, `pgrep -af clipmesh`."@;
        let port = crate::node::port_text(listen@);
        assert(r@ =~= "cannot bind "@ + listen@ + (a + port + z));
        reveal_strlit(": address already in use. Another process is bound to this port — most likely another clipmesh instance. Check: `ss -tlnp 'sport = :");
        reveal_strlit("sport = :");
        let b = a.take(a.len() - "sport = :"@.len());
        assert(a =~= b + "sport = :"@);
        let x = "cannot bind "@ + listen@ + b;
        assert(r@ =~= x + ("sport = :"@ + port) + z);
    } else {
        assert(r@ =~= "binding "@ + listen@ + (": "@ + cause@));
        let s = ": "@ + cause@;
        assert(r@.skip(r@.len() - s.len()) =~= s);
    }
}

/// The port of an address is what stands behind its last colon.
pub proof fn the_port_is_behind_the_last_colon(a: Seq<char>, port: Seq<char>)
    requires
        !port.contains(':'),
    ensures
        crate::node::port_text(a + seq![':'] + port) == port,
{
    let s = a + seq![':'] + port;
    crate::text::lemma_last_index(s, ':');
    let i = crate::text::last_index(s, ':');
    assert(s[a.len() as int] == ':');
    if i > a.len() {
        assert(port[i - a.len() - 1] == ':');
    }
    assert(s.skip(a.len() as int + 1) =~= port);
}

/// The later of two versions wins; of two at the same time, that of the greater node.
pub proof fn the_later_version_wins(a: Version, b: Version)
    ensures
        a.stamp > b.stamp ==> wins_over(a, b) && !wins_over(b, a),
        a.stamp == b.stamp && a.origin > b.origin ==> wins_over(a, b) && !wins_over(b, a),
        !wins_over(a, a),
{
}

/// Two offers with the same representations have the same hash, in whatever order they are.
pub proof fn the_order_does_not_change_the_hash(
    a: &Offer,
    b: &Offer,
    x: [u8; 32],
    y: [u8; 32],
)
    requires
        call_ensures(content_hash, (a,), x),
        call_ensures(content_hash, (b,), y),
        distinct_types(offer_pairs(*a)),
        distinct_types(offer_pairs(*b)),
        forall|p: Pair| offer_pairs(*a).contains(p) <==> offer_pairs(*b).contains(p),
    ensures
        x@ == y@,
        x@ == crate::digest::blake3_digest(identity_bytes(offer_pairs(*a))),
{
    crate::protocol::content_hash_ignores_the_order(offer_pairs(*a), offer_pairs(*b));
}

/// What is hashed of an offer is each representation, in the order of the types: the length of
/// the type and the type, the length of the data and the data.
pub proof fn what_is_hashed(p: Pair, rest: Seq<Pair>)
    requires
        distinct_types(seq![p] + rest),
        ascending(types_of(seq![p] + rest)),
    ensures
        identity_bytes(seq![p] + rest) == spec_u64_to_le_bytes(encode_utf8(p.0).len() as u64)
            + encode_utf8(p.0) + spec_u64_to_le_bytes(p.1.len() as u64) + p.1 + identity_bytes(rest),
        identity_bytes(Seq::empty()).len() == 0,
{
    let all = seq![p] + rest;
    assert(distinct_types(rest)) by {
        assert forall|i: int, j: int| 0 <= i < j < rest.len() implies (#[trigger] rest[i]).0 != (
        #[trigger] rest[j]).0 by {
            assert(all[i + 1].0 != all[j + 1].0);
        }
    }
    assert(ascending(types_of(rest))) by {
        let t = types_of(rest);
        assert forall|i: int, j: int| 0 <= i < j < t.len() implies !before(
            #[trigger] t[j],
            #[trigger] t[i],
        ) by {
            assert(types_of(all)[i + 1] == t[i] && types_of(all)[j + 1] == t[j]);
        }
    }
    lemma_sorted_stays(all);
    lemma_sorted_stays(rest);
    lemma_sorted_stays(Seq::empty());
    assert(all.drop_first() =~= rest);
    assert(all[0] == p);
}

proof fn lemma_sorted_stays(s: Seq<Pair>)
    requires
        distinct_types(s),
        ascending(types_of(s)),
    ensures
        sorted_pairs(s) == s,
{
    assert(sorts_pairs(s, s));
    crate::protocol::lemma_sorted_unique(sorted_pairs(s), s, s, s);
}

/// An offer is described type by type, in its order, each with its size.
pub proof fn an_offer_is_described_type_by_type(offer: &Offer, r: String, i: int)
    requires
        call_ensures(describe_offer, (offer,), r),
        0 <= i < offer_pairs(*offer).len(),
    ensures
        r@ == join(described(offer_pairs(*offer)), ", "@),
        described(offer_pairs(*offer)).len() == offer_pairs(*offer).len(),
        described(offer_pairs(*offer))[i] == offer_pairs(*offer)[i].0 + "="@ + human(
            offer_pairs(*offer)[i].1.len(),
        ),
{
}

/// A type is the requested one if they differ in the case of letters at most; so every type is
/// the requested one if it is requested by its name.
pub proof fn a_type_is_requested_by_its_name(a: &str, b: &str, r: bool)
    requires
        call_ensures(type_matches, (a, b), r),
    ensures
        a@ == b@ ==> r,
        r ==> encode_utf8(a@).len() == encode_utf8(b@).len(),
        r <==> crate::glob::same_folded(encode_utf8(a@), encode_utf8(b@)),
{
}

/// The two selections have names and places of their own.
pub proof fn the_selections_are_told_apart(
    kind: SelectionKind,
    i: usize,
    name: &'static str,
)
    requires
        call_ensures(SelectionKind::index, (kind,), i),
        call_ensures(SelectionKind::name, (kind,), name),
    ensures
        kind == SelectionKind::Clipboard <==> i == 0,
        kind == SelectionKind::Selection <==> i == 1,
        kind == SelectionKind::Clipboard ==> name@ == "Clipboard"@,
        kind == SelectionKind::Selection ==> name@ == "Selection"@,
{
}

/// A hashed offer has the hash of the offer that it was made of, and gives that offer back.
pub proof fn a_hashed_offer_is_the_offer(
    offer: Offer,
    h: Hashed,
    hash: [u8; 32],
    other: [u8; 32],
    seen: &Offer,
    back: Offer,
    empty: bool,
)
    requires
        call_ensures(Hashed::new, (offer,), h),
        call_ensures(Hashed::hash, (&h,), hash),
        call_ensures(content_hash, (&offer,), other),
        call_ensures(Hashed::offer, (&h,), seen),
        call_ensures(Hashed::into_offer, (h,), back),
        call_ensures(Hashed::is_empty, (&h,), empty),
    ensures
        hash@ == other@,
        offer_pairs(*seen) == offer_pairs(offer),
        offer_pairs(back) == offer_pairs(offer),
        empty <==> offer_pairs(offer).len() == 0,
{
}

/// Sharing a hashed offer changes neither it nor its hash.
pub proof fn a_shared_offer_is_the_offer(
    offer: Arc<Offer>,
    h: Hashed,
    hash: [u8; 32],
    other: [u8; 32],
    back: Arc<Offer>,
)
    requires
        call_ensures(Hashed::from_arc, (offer,), h),
        call_ensures(Hashed::hash, (&h,), hash),
        call_ensures(content_hash, (&*offer,), other),
        call_ensures(Hashed::into_arc, (h,), back),
    ensures
        hash@ == other@,
        offer_pairs(*back) == offer_pairs(*offer),
{
}

/// A type is plain text if its name begins with `text/plain`, in capitals or not; and every
/// plain text is a text.
pub proof fn plain_text_is_text(mime: &str, plain: bool, text: bool)
    requires
        call_ensures(is_text_plain, (mime,), plain),
        call_ensures(is_text, (mime,), text),
    ensures
        plain ==> text,
        plain <==> encode_utf8(mime@).len() >= encode_utf8("text/plain"@).len()
            && crate::glob::same_folded(
            encode_utf8(mime@).take(encode_utf8("text/plain"@).len() as int),
            encode_utf8("text/plain"@),
        ),
{
    reveal_strlit("text/");
    reveal_strlit("text/plain");
    if plain {
        let (m, p, t) = (encode_utf8(mime@), encode_utf8("text/plain"@), encode_utf8("text/"@));
        vstd::utf8::is_ascii_chars_encode_utf8("text/"@);
        vstd::utf8::is_ascii_chars_encode_utf8("text/plain"@);
        assert(t.len() == 5 && p.len() == 10);
        assert forall|i: int| 0 <= i < t.len() implies crate::glob::fold(
            #[trigger] m.take(t.len() as int)[i],
        ) == crate::glob::fold(t[i]) by {
            assert(m.take(p.len() as int)[i] == m.take(t.len() as int)[i]);
            assert("text/plain"@[i] == "text/"@[i]);
            assert(p[i] == t[i]);
        }
    }
}

/// A mesh knows its own node, counts and lists the nodes that it is connected to, and starts
/// with none.
pub proof fn a_mesh_lists_its_peers(
    own: NodeId,
    new: Mesh,
    mesh: &Mesh,
    id: NodeId,
    count: usize,
    ids: Vec<NodeId>,
    first: Vec<NodeId>,
    room: bool,
)
    requires
        call_ensures(Mesh::new, (own,), new),
        call_ensures(Mesh::own_id, (&new,), id),
        call_ensures(Mesh::peer_ids, (&new,), first),
        call_ensures(Mesh::peer_count, (mesh,), count),
        call_ensures(Mesh::peer_ids, (mesh,), ids),
        call_ensures(Mesh::can_register, (&new,), room),
    ensures
        id == own,
        first@.len() == 0,
        count == ids@.len(),
        ids@ == mesh.peers(),
        room,
{
}

/// A connection to oneself says so, and any other failure says its cause.
pub proof fn a_failed_connection_says_why(
    e: &ConnError,
    r: String,
    own: &SelfConnection,
    s: String,
)
    requires
        call_ensures(ConnError::message, (e,), r),
        call_ensures(SelfConnection::message, (own,), s),
    ensures
        e@ matches ConnFault::Failed(cause) ==> r@ == cause,
        e@ is SelfConnection ==> r@ == s@,
        has_prefix(s@, "self-connection detected"@),
{
    reveal_strlit("self-connection detected (is this node in its own peer list?)");
    reveal_strlit("self-connection detected");
    assert(s@.take("self-connection detected"@.len() as int) =~= "self-connection detected"@);
}

/// The pauses between dials begin at a second, double and never pass five; a connection that
/// lived for half a minute starts them anew, and no more inbound connections are open than the
/// limit.
pub proof fn the_pauses_are_bounded(d: Dialer, n: nat, inbound: Inbound)
    requires
        call_ensures(Dialer::new, (), d),
        call_ensures(Inbound::new, (), inbound),
    ensures
        d.backoff() == 1_000_000_000,
        !d.failing(),
        dial_pause(0) == 1_000_000_000,
        dial_pause(n) <= 5_000_000_000,
        dial_pause(n + 1) == 2 * dial_pause(n) || dial_pause(n + 1) == 5_000_000_000,
        2 * dial_pause(n) <= 5_000_000_000 ==> dial_pause(n + 1) == 2 * dial_pause(n),
        HEALTHY == 30_000_000_000,
        MAX_INBOUND_CONNECTIONS == 64,
        inbound.open() == 0,
{
    if n > 0 {
        assert(dial_pause(n) == crate::node::longer(dial_pause((n - 1) as nat)));
    }
}

/// Of two versions the one that wins is the greater.
pub proof fn the_version_that_wins_is_greater(a: Version, b: Version)
    ensures
        a.partial_cmp_spec(&b) == Some(Ordering::Greater) <==> wins_over(a, b),
        a.partial_cmp_spec(&b) == Some(Ordering::Less) <==> wins_over(b, a),
        a.partial_cmp_spec(&b) == Some(Ordering::Equal) <==> a == b,
        a.stamp > b.stamp ==> a.partial_cmp_spec(&b) == Some(Ordering::Greater),
        a.stamp == b.stamp && a.origin > b.origin ==> a.partial_cmp_spec(&b) == Some(
            Ordering::Greater,
        ),
{
}

/// A node is gone when its last connection is; taking away a connection of a node that has none
/// tells of nothing, and no node stays listed without one.
pub proof fn a_node_is_gone_with_its_last_connection(
    mesh: &mut Mesh,
    remote: NodeId,
    id: u64,
    gone: bool,
)
    requires
        old(mesh).wf(),
        call_ensures(Mesh::unregister, (mesh, remote, id), gone),
    ensures
        gone ==> old(mesh).conns(remote).len() > 0 && final(mesh).conns(remote).len() == 0,
        old(mesh).conns(remote).len() == 0 ==> !gone,
        final(mesh).conns(remote).len() > 0 ==> !gone,
        !gone ==> final(mesh).peers() == old(mesh).peers(),
        old(mesh).conns(remote).len() == 1 && old(mesh).conns(remote)[0].id == id ==> gone,
{
    let was = old(mesh).conns(remote);
    if was.len() == 1 && was[0].id == id {
        reveal_with_fuel(without, 2);
        assert(was.last() == was[0]);
        assert(was.drop_last().len() == 0);
        assert(without(was, id).len() == 0);
    }
}

} // verus!
