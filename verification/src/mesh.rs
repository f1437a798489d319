//! The live peer table: which connections there are to which nodes, and over which of
//! them something is sent.

use crate::node_id::{is_random_uuid, new_node_id, NodeId};
use crate::protocol::PeerRole;
use vstd::prelude::*;

verus! {

/// A live connection.
#[derive(Debug, Clone, Copy, PartialEq, Eq, Structural)]
pub struct Conn {
    pub id: u64,
    /// What the far end is.
    pub role: PeerRole,
}

/// The connections to one node, oldest first. The first is the designated one: sends go
/// over it, the rest are warm standbys.
struct Group {
    peer: NodeId,
    conns: Vec<Conn>,
}

/// Live peer table. Connections are grouped by remote node.
pub struct Mesh {
    own_id: NodeId,
    next_conn_id: u64,
    groups: Vec<Group>,
}

/// What became of a connection that was added.
#[derive(Debug, Clone, Copy, PartialEq, Eq, Structural)]
pub struct Registered {
    /// The connection's number.
    pub id: u64,
    /// Whether the node just joined or rejoined the mesh: its first connection as a peer.
    pub joined: bool,
}

/// Some connections without the one of this number.
pub open spec fn without(conns: Seq<Conn>, id: u64) -> Seq<Conn>
    decreases conns.len(),
{
    if conns.len() == 0 {
        Seq::empty()
    } else if conns.last().id == id {
        without(conns.drop_last(), id)
    } else {
        without(conns.drop_last(), id).push(conns.last())
    }
}

/// The connection that a broadcast to a node goes over: the first as a peer. A paster is
/// registered only so that its request can be answered.
pub open spec fn peer_conn(conns: Seq<Conn>) -> Option<u64>
    decreases conns.len(),
{
    if conns.len() == 0 {
        None
    } else if conns[0].role == PeerRole::Peer {
        Some(conns[0].id)
    } else {
        peer_conn(conns.skip(1))
    }
}

/// The connection that a message to a node goes over: the first.
pub open spec fn send_conn(conns: Seq<Conn>) -> Option<u64> {
    if conns.len() == 0 {
        None
    } else {
        Some(conns[0].id)
    }
}

/// The place of a node in the table.
spec fn place(groups: Seq<Group>, peer: NodeId) -> Option<int>
    decreases groups.len(),
{
    if groups.len() == 0 {
        None
    } else if groups.last().peer == peer {
        Some(groups.len() - 1)
    } else {
        place(groups.drop_last(), peer)
    }
}

proof fn lemma_place(groups: Seq<Group>, peer: NodeId)
    ensures
        match place(groups, peer) {
            Some(i) => 0 <= i < groups.len() && groups[i].peer == peer,
            None => forall|i: int| 0 <= i < groups.len() ==> (#[trigger] groups[i]).peer != peer,
        },
    decreases groups.len(),
{
    if groups.len() > 0 && groups.last().peer != peer {
        let rest = groups.drop_last();
        lemma_place(rest, peer);
        if place(rest, peer) is None {
            assert forall|i: int| 0 <= i < groups.len() implies (#[trigger] groups[i]).peer
                != peer by {
                if i < rest.len() {
                    assert(rest[i] == groups[i]);
                }
            }
        }
    }
}

/// Whether no node has two groups.
spec fn one_group_each(groups: Seq<Group>) -> bool {
    forall|i: int, j: int|
        0 <= i < j < groups.len() ==> (#[trigger] groups[i]).peer != (#[trigger] groups[j]).peer
}

proof fn lemma_place_is(groups: Seq<Group>, i: int)
    requires
        0 <= i < groups.len(),
        one_group_each(groups),
    ensures
        place(groups, groups[i].peer) == Some(i),
{
    lemma_place(groups, groups[i].peer);
    match place(groups, groups[i].peer) {
        Some(j) => {
            if i < j {
                assert(groups[i].peer != groups[j].peer);
            } else if j < i {
                assert(groups[j].peer != groups[i].peer);
            }
        },
        None => {
            assert(groups[i].peer != groups[i].peer);
        },
    }
}

impl Mesh {
    /// This node.
    pub closed spec fn own(&self) -> NodeId {
        self.own_id
    }

    /// The number of the next connection.
    pub closed spec fn next(&self) -> u64 {
        self.next_conn_id
    }

    /// The nodes there are connections to, oldest first.
    pub closed spec fn peers(&self) -> Seq<NodeId> {
        self.groups@.map_values(|g: Group| g.peer)
    }

    /// The connections to a node, oldest first.
    pub closed spec fn conns(&self, peer: NodeId) -> Seq<Conn> {
        match place(self.groups@, peer) {
            Some(i) => self.groups@[i].conns@,
            None => Seq::empty(),
        }
    }

    /// Each node is listed once, with at least one connection, and every connection has a
    /// number that was handed out.
    pub closed spec fn wf(&self) -> bool {
        &&& one_group_each(self.groups@)
        &&& forall|i: int| 0 <= i < self.groups@.len() ==> (#[trigger] self.groups@[i]).conns@.len()
            > 0
        &&& forall|i: int, k: int|
            0 <= i < self.groups@.len() && 0 <= k < self.groups@[i].conns@.len() ==> (
            #[trigger] self.groups@[i].conns@[k]).id < self.next_conn_id
    }

    /// An empty table of the node `own_id`.
    pub fn new(own_id: NodeId) -> (r: Mesh)
        ensures
            r.wf(),
            r.own() == own_id,
            r.next() == 0,
            r.peers() == Seq::<NodeId>::empty(),
            forall|p: NodeId| (#[trigger] r.conns(p)) == Seq::<Conn>::empty(),
    {
        let r = Mesh { own_id, next_conn_id: 0, groups: Vec::new() };
        proof {
            assert(r.peers() =~= Seq::<NodeId>::empty());
        }
        r
    }

    /// An empty table of a node with a random identity.
    pub fn fresh() -> (r: Mesh)
        ensures
            r.wf(),
            is_random_uuid(r.own()),
            r.next() == 0,
            r.peers() == Seq::<NodeId>::empty(),
            forall|p: NodeId| (#[trigger] r.conns(p)) == Seq::<Conn>::empty(),
    {
        Mesh::new(new_node_id())
    }

    /// This node.
    pub fn own_id(&self) -> (r: NodeId)
        ensures
            r == self.own(),
    {
        self.own_id
    }

    /// Whether another connection can be numbered.
    pub fn can_register(&self) -> (r: bool)
        ensures
            r == (self.next() < u64::MAX),
    {
        self.next_conn_id < u64::MAX
    }

    fn find(&self, peer: NodeId) -> (r: Option<usize>)
        requires
            self.wf(),
        ensures
            match r {
                Some(i) => place(self.groups@, peer) == Some(i as int) && i < self.groups@.len(),
                None => place(self.groups@, peer) is None,
            },
    {
        let mut i: usize = 0;
        while i < self.groups.len()
            invariant
                i <= self.groups@.len(),
                self.wf(),
                forall|k: int| 0 <= k < i ==> (#[trigger] self.groups@[k]).peer != peer,
            decreases self.groups@.len() - i,
        {
            if self.groups[i].peer == peer {
                proof {
                    lemma_place_is(self.groups@, i as int);
                }
                return Some(i);
            }
            i += 1;
        }
        proof {
            lemma_place(self.groups@, peer);
            if let Some(j) = place(self.groups@, peer) {
                assert(self.groups@[j].peer != peer);
            }
        }
        None
    }

    /// Adds a connection to a node.
    pub fn register(&mut self, remote: NodeId, role: PeerRole) -> (r: Registered)
        requires
            old(self).wf(),
            old(self).next() < u64::MAX,
        ensures
            final(self).wf(),
            final(self).own() == old(self).own(),
            final(self).next() == old(self).next() + 1,
            r.id == old(self).next(),
            r.joined == (role == PeerRole::Peer && peer_conn(old(self).conns(remote)) is None),
            final(self).conns(remote) == old(self).conns(remote).push((Conn { id: r.id, role })),
            forall|p: NodeId|
                p != remote ==> (#[trigger] final(self).conns(p)) == old(self).conns(p),
            final(self).peers() == (if old(self).conns(remote).len() > 0 {
                old(self).peers()
            } else {
                old(self).peers().push(remote)
            }),
            forall|k: int|
                0 <= k < old(self).conns(remote).len() ==> (#[trigger] old(self).conns(
                    remote,
                )[k]).id < r.id,
    {
        let id: u64 = self.next_conn_id;
        let conn = Conn { id, role };
        let ghost was = self.groups@;
        let ghost before = self.conns(remote);
        let found = self.find(remote);
        proof {
            lemma_place(was, remote);
        }
        let had = match found {
            Some(i) => first_peer(self.groups[i].conns.as_slice()).is_some(),
            None => false,
        };
        self.next_conn_id = id + 1;
        match found {
            Some(i) => {
                self.groups[i].conns.push(conn);
                proof {
                    let now = self.groups@;
                    assert(now.len() == was.len());
                    assert forall|k: int| 0 <= k < now.len() implies (#[trigger] now[k]).peer
                        == was[k].peer by {}
                    assert(one_group_each(now)) by {
                        assert forall|a: int, b: int| 0 <= a < b < now.len() implies (
                        #[trigger] now[a]).peer != (#[trigger] now[b]).peer by {
                            assert(was[a].peer != was[b].peer);
                        }
                    }
                    lemma_same_places(was, now);
                    assert forall|p: NodeId| p != remote implies (#[trigger] self.conns(p))
                        == old(self).conns(p) by {
                        lemma_place(was, p);
                    }
                    assert(self.peers() =~= old(self).peers());
                }
            },
            None => {
                let mut conns: Vec<Conn> = Vec::new();
                conns.push(conn);
                let ghost list = conns@;
                self.groups.push(Group { peer: remote, conns });
                proof {
                    let now = self.groups@;
                    assert(now.drop_last() =~= was);
                    assert(one_group_each(now)) by {
                        assert forall|a: int, b: int| 0 <= a < b < now.len() implies (
                        #[trigger] now[a]).peer != (#[trigger] now[b]).peer by {
                            if b < was.len() {
                                assert(was[a].peer != was[b].peer);
                            } else {
                                assert(was[a].peer != remote);
                            }
                        }
                    }
                    assert(place(now, remote) == Some(was.len() as int));
                    assert(self.conns(remote) =~= before.push(conn));
                    assert forall|p: NodeId| p != remote implies (#[trigger] self.conns(p))
                        == old(self).conns(p) by {
                        assert(place(now, p) == place(was, p));
                        lemma_place(was, p);
                    }
                    assert(self.peers() =~= old(self).peers().push(remote));
                }
            },
        }
        Registered { id, joined: role == PeerRole::Peer && !had }
    }

    /// Removes a connection. If it was the designated one, the next (if any) is promoted by
    /// its position. Returns whether that was the last one to the node.
    pub fn unregister(&mut self, remote: NodeId, conn_id: u64) -> (gone: bool)
        requires
            old(self).wf(),
        ensures
            final(self).wf(),
            final(self).own() == old(self).own(),
            final(self).next() == old(self).next(),
            final(self).conns(remote) == without(old(self).conns(remote), conn_id),
            forall|p: NodeId|
                p != remote ==> (#[trigger] final(self).conns(p)) == old(self).conns(p),
            gone == (old(self).conns(remote).len() > 0 && final(self).conns(remote).len() == 0),
            final(self).peers() == (if gone {
                old(self).peers().remove_value(remote)
            } else {
                old(self).peers()
            }),
    {
        let ghost was = self.groups@;
        let found = self.find(remote);
        proof {
            lemma_place(was, remote);
        }
        match found {
            None => false,
            Some(i) => {
                let left = keep_others(self.groups[i].conns.as_slice(), conn_id);
                proof {
                    lemma_without(was[i as int].conns@, conn_id);
                }
                if left.len() == 0 {
                    let _ = self.groups.remove(i);
                    proof {
                        let now = self.groups@;
                        assert(now =~= was.remove(i as int));
                        lemma_removed(was, i as int);
                        assert forall|p: NodeId| p != remote implies (#[trigger] self.conns(p))
                            == old(self).conns(p) by {
                            lemma_place(was, p);
                        }
                        assert(self.peers() =~= old(self).peers().remove(i as int));
                        lemma_remove_value(old(self).peers(), i as int);
                        assert forall|a: int, k: int|
                            0 <= a < now.len() && 0 <= k < now[a].conns@.len() implies (
                        #[trigger] now[a].conns@[k]).id < self.next_conn_id by {
                            let b = if a < i {
                                a
                            } else {
                                a + 1
                            };
                            assert(was[b].conns@[k].id < self.next_conn_id);
                        }
                        assert forall|a: int| 0 <= a < now.len() implies (
                        #[trigger] now[a]).conns@.len() > 0 by {
                            let b = if a < i {
                                a
                            } else {
                                a + 1
                            };
                            assert(was[b].conns@.len() > 0);
                        }
                    }
                    true
                } else {
                    let ghost kept = left@;
                    self.groups[i].conns = left;
                    proof {
                        let now = self.groups@;
                        assert forall|k: int| 0 <= k < now.len() implies (#[trigger] now[k]).peer
                            == was[k].peer by {}
                        assert(one_group_each(now)) by {
                            assert forall|a: int, b: int| 0 <= a < b < now.len() implies (
                            #[trigger] now[a]).peer != (#[trigger] now[b]).peer by {
                                assert(was[a].peer != was[b].peer);
                            }
                        }
                        lemma_same_places(was, now);
                        assert forall|p: NodeId| p != remote implies (#[trigger] self.conns(p))
                            == old(self).conns(p) by {
                            lemma_place(was, p);
                        }
                        assert(self.peers() =~= old(self).peers());
                        assert forall|a: int, k: int|
                            0 <= a < now.len() && 0 <= k < now[a].conns@.len() implies (
                        #[trigger] now[a].conns@[k]).id < self.next_conn_id by {
                            if a == i {
                                let all = was[a].conns@;
                                assert(all.contains(kept[k]));
                                let m = choose|m: int| 0 <= m < all.len() && all[m] == kept[k];
                                assert(was[a].conns@[m].id < self.next_conn_id);
                            } else {
                                assert(was[a].conns@[k].id < self.next_conn_id);
                            }
                        }
                        assert forall|a: int| 0 <= a < now.len() implies (
                        #[trigger] now[a]).conns@.len() > 0 by {
                            if a != i {
                                assert(was[a].conns@.len() > 0);
                            }
                        }
                    }
                    false
                }
            },
        }
    }

    /// Where a broadcast goes: to every peer, over one connection each.
    pub fn broadcast(&self) -> (r: Vec<(NodeId, u64)>)
        requires
            self.wf(),
        ensures
            r@ == self.broadcast_targets(),
    {
        let mut r: Vec<(NodeId, u64)> = Vec::new();
        let ghost ps = self.peers();
        let mut i: usize = 0;
        proof {
            assert(ps.take(0) =~= Seq::<NodeId>::empty());
        }
        while i < self.groups.len()
            invariant
                i <= self.groups@.len(),
                self.wf(),
                ps == self.peers(),
                r@ == self.targets_among(ps.take(i as int)),
            decreases self.groups@.len() - i,
        {
            let g = &self.groups[i];
            proof {
                assert(ps.take(i + 1).drop_last() =~= ps.take(i as int));
                assert(ps.take(i + 1).last() == g.peer);
                lemma_place_is(self.groups@, i as int);
            }
            if let Some(id) = first_peer(g.conns.as_slice()) {
                r.push((g.peer, id));
            }
            i += 1;
        }
        proof {
            assert(ps.take(ps.len() as int) =~= ps);
        }
        r
    }

    /// Where a broadcast to some nodes goes.
    pub open spec fn targets_among(&self, peers: Seq<NodeId>) -> Seq<(NodeId, u64)>
        decreases peers.len(),
    {
        if peers.len() == 0 {
            Seq::empty()
        } else {
            let rest = self.targets_among(peers.drop_last());
            match peer_conn(self.conns(peers.last())) {
                Some(id) => rest.push((peers.last(), id)),
                None => rest,
            }
        }
    }

    /// Where a broadcast goes.
    pub open spec fn broadcast_targets(&self) -> Seq<(NodeId, u64)> {
        self.targets_among(self.peers())
    }

    /// The connection over which a message to one node goes.
    pub fn send_to(&self, peer: NodeId) -> (r: Option<u64>)
        requires
            self.wf(),
        ensures
            r == send_conn(self.conns(peer)),
    {
        match self.find(peer) {
            Some(i) => {
                let g = &self.groups[i];
                assert(g.conns@.len() > 0);
                Some(g.conns[0].id)
            },
            None => None,
        }
    }

    /// How many nodes there are connections to.
    pub fn peer_count(&self) -> (r: usize)
        ensures
            r == self.peers().len(),
    {
        self.groups.len()
    }

    /// The nodes there are connections to.
    pub fn peer_ids(&self) -> (r: Vec<NodeId>)
        ensures
            r@ == self.peers(),
    {
        let mut r: Vec<NodeId> = Vec::new();
        let mut i: usize = 0;
        while i < self.groups.len()
            invariant
                i <= self.groups@.len(),
                r@.len() == i,
                forall|k: int| 0 <= k < i ==> #[trigger] r@[k] == self.groups@[k].peer,
            decreases self.groups@.len() - i,
        {
            r.push(self.groups[i].peer);
            i += 1;
        }
        assert(r@ =~= self.peers());
        r
    }

    proof fn lemma_targets(&self, peers: Seq<NodeId>)
        requires
            peers.no_duplicates(),
        ensures
            ({
                let targets = self.targets_among(peers);
                &&& forall|i: int, j: int|
                    0 <= i < j < targets.len() ==> (#[trigger] targets[i]).0 != (
                    #[trigger] targets[j]).0
                &&& forall|p: NodeId, conn: u64| #[trigger]
                    targets.contains((p, conn)) <==> peers.contains(p) && peer_conn(self.conns(p))
                        == Some(conn)
            }),
        decreases peers.len(),
    {
        let targets = self.targets_among(peers);
        if peers.len() > 0 {
            let (rest, last) = (peers.drop_last(), peers.last());
            let before = self.targets_among(rest);
            self.lemma_targets(rest);
            assert(!rest.contains(last)) by {
                if rest.contains(last) {
                    let i = choose|i: int| 0 <= i < rest.len() && rest[i] == last;
                    assert(peers[i] == peers[peers.len() - 1]);
                }
            }
            assert forall|p: NodeId| peers.contains(p) <==> rest.contains(p) || p == last by {
                if rest.contains(p) {
                    let i = choose|i: int| 0 <= i < rest.len() && rest[i] == p;
                    assert(peers[i] == p);
                }
                if peers.contains(p) {
                    let i = choose|i: int| 0 <= i < peers.len() && peers[i] == p;
                    if i < rest.len() {
                        assert(rest[i] == p);
                    }
                }
                assert(peers[peers.len() - 1] == last);
            }
            assert forall|i: int| 0 <= i < before.len() implies (#[trigger] before[i]).0 != last by {
                assert(before.contains((before[i].0, before[i].1)));
            }
            assert forall|p: NodeId, conn: u64| #[trigger]
                targets.contains((p, conn)) <==> peers.contains(p) && peer_conn(self.conns(p))
                    == Some(conn) by {
                if before.contains((p, conn)) {
                    let i = choose|i: int| 0 <= i < before.len() && before[i] == (p, conn);
                    assert(targets[i] == (p, conn));
                }
                if targets.contains((p, conn)) {
                    let i = choose|i: int| 0 <= i < targets.len() && targets[i] == (p, conn);
                    if i < before.len() {
                        assert(before[i] == (p, conn));
                    }
                }
                if p == last && peer_conn(self.conns(last)) == Some(conn) {
                    assert(targets[before.len() as int] == (p, conn));
                }
            }
        }
    }

    /// However many connections there are to a peer, a broadcast reaches it once, over the
    /// designated one; and it reaches nobody who is no peer.
    pub proof fn a_broadcast_reaches_each_peer_once(&self, peer: NodeId, conn: u64)
        requires
            self.wf(),
        ensures
            self.broadcast_targets().contains((peer, conn)) <==> peer_conn(self.conns(peer))
                == Some(conn),
            forall|i: int, j: int|
                0 <= i < j < self.broadcast_targets().len()
                    ==> (#[trigger] self.broadcast_targets()[i]).0 != (
                #[trigger] self.broadcast_targets()[j]).0,
    {
        self.a_peer_is_listed_while_connected(peer);
        self.lemma_targets(self.peers());
    }

    /// A node is listed exactly while there is a connection to it.
    pub proof fn a_peer_is_listed_while_connected(&self, peer: NodeId)
        requires
            self.wf(),
        ensures
            self.peers().contains(peer) <==> self.conns(peer).len() > 0,
            self.peers().no_duplicates(),
    {
        lemma_place(self.groups@, peer);
        if self.peers().contains(peer) {
            let i = choose|i: int| 0 <= i < self.peers().len() && self.peers()[i] == peer;
            assert(self.groups@[i].peer == peer);
            assert(place(self.groups@, peer) is Some);
            assert(self.groups@[place(self.groups@, peer)->0].conns@.len() > 0);
        }
        if let Some(i) = place(self.groups@, peer) {
            assert(self.peers()[i] == peer);
        }
        assert forall|i: int, j: int|
            0 <= i < self.peers().len() && 0 <= j < self.peers().len() && i != j implies
            self.peers()[i] != self.peers()[j] by {
            assert(self.groups@[i].peer == self.peers()[i]);
            assert(self.groups@[j].peer == self.peers()[j]);
        }
    }
}

fn first_peer(conns: &[Conn]) -> (r: Option<u64>)
    ensures
        r == peer_conn(conns@),
{
    let mut i: usize = 0;
    proof {
        assert(conns@.skip(0) =~= conns@);
    }
    while i < conns.len()
        invariant
            i <= conns@.len(),
            peer_conn(conns@) == peer_conn(conns@.skip(i as int)),
        decreases conns@.len() - i,
    {
        proof {
            assert(conns@.skip(i as int).skip(1) =~= conns@.skip(i + 1));
        }
        if conns[i].role == PeerRole::Peer {
            return Some(conns[i].id);
        }
        i += 1;
    }
    None
}

fn keep_others(conns: &[Conn], id: u64) -> (r: Vec<Conn>)
    ensures
        r@ == without(conns@, id),
{
    let mut r: Vec<Conn> = Vec::new();
    let mut i: usize = 0;
    proof {
        assert(conns@.take(0) =~= Seq::<Conn>::empty());
    }
    while i < conns.len()
        invariant
            i <= conns@.len(),
            r@ == without(conns@.take(i as int), id),
        decreases conns@.len() - i,
    {
        proof {
            assert(conns@.take(i + 1).drop_last() =~= conns@.take(i as int));
        }
        if conns[i].id != id {
            r.push(conns[i]);
        }
        i += 1;
    }
    proof {
        assert(conns@.take(conns@.len() as int) =~= conns@);
    }
    r
}

proof fn lemma_same_places(was: Seq<Group>, now: Seq<Group>)
    requires
        was.len() == now.len(),
        forall|k: int| 0 <= k < now.len() ==> (#[trigger] now[k]).peer == was[k].peer,
    ensures
        forall|p: NodeId| #[trigger] place(now, p) == place(was, p),
    decreases was.len(),
{
    if was.len() > 0 {
        let (a, b) = (was.drop_last(), now.drop_last());
        assert forall|k: int| 0 <= k < b.len() implies (#[trigger] b[k]).peer == a[k].peer by {
            assert(now[k].peer == was[k].peer);
        }
        lemma_same_places(a, b);
        assert(now[now.len() - 1].peer == was[was.len() - 1].peer);
        assert forall|p: NodeId| #[trigger] place(now, p) == place(was, p) by {
            assert(place(b, p) == place(a, p));
        }
    }
}

proof fn lemma_without(conns: Seq<Conn>, id: u64)
    ensures
        forall|k: int|
            0 <= k < without(conns, id).len() ==> conns.contains(
                #[trigger] without(conns, id)[k],
            ),
    decreases conns.len(),
{
    if conns.len() > 0 {
        let rest = conns.drop_last();
        lemma_without(rest, id);
        let left = without(conns, id);
        assert forall|k: int| 0 <= k < left.len() implies conns.contains(#[trigger] left[k]) by {
            let small = without(rest, id);
            if k < small.len() {
                assert(left[k] == small[k]);
                assert(rest.contains(small[k]));
                let m = choose|m: int| 0 <= m < rest.len() && rest[m] == small[k];
                assert(conns[m] == left[k]);
            } else {
                assert(conns[conns.len() - 1] == left[k]);
            }
        }
    }
}

proof fn lemma_removed(was: Seq<Group>, i: int)
    requires
        0 <= i < was.len(),
        one_group_each(was),
    ensures
        one_group_each(was.remove(i)),
        place(was.remove(i), was[i].peer) is None,
        forall|p: NodeId|
            p != was[i].peer ==> match place(was, p) {
                Some(j) => #[trigger] place(was.remove(i), p) == Some(
                    if j < i {
                        j
                    } else {
                        j - 1
                    },
                ),
                None => place(was.remove(i), p) is None,
            },
{
    let now = was.remove(i);
    assert forall|k: int| 0 <= k < now.len() implies #[trigger] now[k] == (if k < i {
        was[k]
    } else {
        was[k + 1]
    }) by {}
    assert forall|a: int, b: int| 0 <= a < b < now.len() implies (#[trigger] now[a]).peer != (
    #[trigger] now[b]).peer by {
        let x = if a < i {
            a
        } else {
            a + 1
        };
        let y = if b < i {
            b
        } else {
            b + 1
        };
        assert(was[x].peer != was[y].peer);
    }
    lemma_place(now, was[i].peer);
    if let Some(k) = place(now, was[i].peer) {
        let x = if k < i {
            k
        } else {
            k + 1
        };
        if x < i {
            assert(was[x].peer != was[i].peer);
        } else {
            assert(was[i].peer != was[x].peer);
        }
    }
    assert forall|p: NodeId| p != was[i].peer implies match place(was, p) {
        Some(j) => #[trigger] place(now, p) == Some(
            if j < i {
                j
            } else {
                j - 1
            },
        ),
        None => place(now, p) is None,
    } by {
        lemma_place(was, p);
        lemma_place(now, p);
        match place(was, p) {
            Some(j) => {
                let k = if j < i {
                    j
                } else {
                    j - 1
                };
                assert(now[k].peer == p);
                lemma_place_is(now, k);
            },
            None => {
                if let Some(k) = place(now, p) {
                    let x = if k < i {
                        k
                    } else {
                        k + 1
                    };
                    assert(was[x].peer != p);
                }
            },
        }
    }
}

proof fn lemma_remove_value(s: Seq<NodeId>, i: int)
    requires
        0 <= i < s.len(),
        forall|k: int| 0 <= k < s.len() && k != i ==> s[k] != s[i],
    ensures
        s.remove_value(s[i]) == s.remove(i),
{
    let j = s.index_of_first(s[i]);
    s.index_of_first_ensures(s[i]);
}

/// A connection that is registered and unregistered again leaves no trace: the
/// connections to its node are as before.
pub proof fn unregistering_undoes_registering(conns: Seq<Conn>, conn: Conn)
    requires
        forall|k: int| 0 <= k < conns.len() ==> (#[trigger] conns[k]).id != conn.id,
    ensures
        without(conns.push(conn), conn.id) == conns,
{
    assert(conns.push(conn).drop_last() =~= conns);
    lemma_nothing_removed(conns, conn.id);
}

proof fn lemma_nothing_removed(conns: Seq<Conn>, id: u64)
    requires
        forall|k: int| 0 <= k < conns.len() ==> (#[trigger] conns[k]).id != id,
    ensures
        without(conns, id) == conns,
    decreases conns.len(),
{
    if conns.len() > 0 {
        assert forall|k: int| 0 <= k < conns.drop_last().len() implies (
        #[trigger] conns.drop_last()[k]).id != id by {
            assert(conns[k].id != id);
        }
        lemma_nothing_removed(conns.drop_last(), id);
        assert(without(conns, id) =~= conns);
    } else {
        assert(without(conns, id) =~= conns);
    }
}

/// A connection that was unregistered is not among the connections to its node any more.
pub proof fn an_unregistered_connection_is_gone(conns: Seq<Conn>, id: u64)
    ensures
        forall|k: int|
            0 <= k < without(conns, id).len() ==> (#[trigger] without(conns, id)[k]).id != id,
    decreases conns.len(),
{
    if conns.len() > 0 {
        an_unregistered_connection_is_gone(conns.drop_last(), id);
    }
}

/// Failover: when the designated connection goes, the next one is promoted, and sends and
/// broadcasts go over it.
pub proof fn the_next_connection_is_promoted(conns: Seq<Conn>)
    requires
        conns.len() > 1,
        forall|k: int| 1 <= k < conns.len() ==> (#[trigger] conns[k]).id != conns[0].id,
    ensures
        send_conn(without(conns, conns[0].id)) == Some(conns[1].id),
        conns[1].role == PeerRole::Peer ==> peer_conn(without(conns, conns[0].id)) == Some(
            conns[1].id,
        ),
{
    lemma_without_first(conns);
    assert(without(conns, conns[0].id)[0] == conns[1]);
}

proof fn lemma_without_first(conns: Seq<Conn>)
    requires
        conns.len() > 0,
        forall|k: int| 1 <= k < conns.len() ==> (#[trigger] conns[k]).id != conns[0].id,
    ensures
        without(conns, conns[0].id) == conns.skip(1),
    decreases conns.len(),
{
    if conns.len() == 1 {
        assert(without(conns.drop_last(), conns[0].id) =~= Seq::<Conn>::empty());
        assert(conns.skip(1) =~= Seq::<Conn>::empty());
    } else {
        let rest = conns.drop_last();
        assert forall|k: int| 1 <= k < rest.len() implies (#[trigger] rest[k]).id
            != rest[0].id by {
            assert(conns[k].id != conns[0].id);
        }
        lemma_without_first(rest);
        assert(rest.skip(1).push(conns.last()) =~= conns.skip(1));
        assert(conns[conns.len() - 1].id != conns[0].id);
    }
}

} // verus!
