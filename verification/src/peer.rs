//! One connection, from the hello exchange to its end.

use crate::backoff::Nanos;
use crate::mesh::{peer_conn, without, Conn, Mesh};
use crate::node_id::NodeId;
use crate::protocol::{Message, PeerRole, PROTOCOL_VERSION};
use crate::text::{decimal, decimal_of};
use vstd::prelude::*;

verus! {

/// A connection that completes neither the handshake nor the hello exchange within this
/// time is dropped.
pub const HANDSHAKE_TIMEOUT: Nanos = 10_000_000_000;

/// What a message may be longer than the payload: room for its encoding.
pub const ENCODING_SLACK: usize = 65_536;

/// The peer announced our own node ID. Dial loops treat this as permanent and stop
/// retrying the address.
#[derive(Debug, Clone, Copy, PartialEq, Eq, Structural)]
pub struct SelfConnection;

/// What is said of a connection to oneself.
pub open spec fn self_connection_text() -> Seq<char> {
    "self-connection detected (is this node in its own peer list?)"@
}

impl SelfConnection {
    /// What the error says.
    pub fn message(&self) -> (r: String)
        ensures
            r@ == self_connection_text(),
    {
        "self-connection detected (is this node in its own peer list?)".to_string()
    }
}

/// Why a connection ended.
#[derive(Debug)]
pub enum ConnError {
    /// It is a connection to oneself.
    SelfConnection(SelfConnection),
    /// Anything else.
    Failed(String),
}

/// Why a connection ended, over texts.
#[verifier::ext_equal]
pub enum ConnFault {
    SelfConnection,
    Failed(Seq<char>),
}

impl View for ConnError {
    type V = ConnFault;

    open spec fn view(&self) -> ConnFault {
        match *self {
            ConnError::SelfConnection(_) => ConnFault::SelfConnection,
            ConnError::Failed(e) => ConnFault::Failed(e@),
        }
    }
}

impl ConnError {
    /// What the error says.
    pub fn message(&self) -> (r: String)
        ensures
            r@ == (match self@ {
                ConnFault::SelfConnection => self_connection_text(),
                ConnFault::Failed(e) => e,
            }),
    {
        match self {
            ConnError::SelfConnection(s) => s.message(),
            ConnError::Failed(e) => e.clone(),
        }
    }
}

/// What is said of a peer that speaks another version.
pub open spec fn version_text(remote: nat) -> Seq<char> {
    "protocol version mismatch: peer speaks v"@ + decimal(remote) + ", we speak v"@ + decimal(
        PROTOCOL_VERSION as nat,
    ) + " — upgrade all clipmesh nodes to the same version"@
}

/// Refuses a peer whose wire protocol version differs from ours.
pub fn check_protocol_version(remote: u32) -> (r: Result<(), String>)
    ensures
        match r {
            Ok(()) => remote == PROTOCOL_VERSION,
            Err(e) => remote != PROTOCOL_VERSION && e@ == version_text(remote as nat),
        },
{
    if remote != PROTOCOL_VERSION {
        let mut s = "protocol version mismatch: peer speaks v".to_string();
        s.append(decimal_of(remote as u128).as_str());
        s.append(", we speak v");
        s.append(decimal_of(PROTOCOL_VERSION as u128).as_str());
        s.append(" — upgrade all clipmesh nodes to the same version");
        return Err(s);
    }
    Ok(())
}

/// How long a message may be: the payload, and some slack for its encoding.
pub fn max_message(max_payload: usize) -> (r: usize)
    requires
        max_payload + ENCODING_SLACK <= usize::MAX,
    ensures
        r == max_payload + ENCODING_SLACK,
{
    max_payload + ENCODING_SLACK
}

/// What a node says first.
pub fn hello(own_id: NodeId, role: PeerRole) -> (r: Message)
    ensures
        r == (Message::Hello { node_id: own_id, protocol_version: PROTOCOL_VERSION, role }),
{
    Message::Hello { node_id: own_id, protocol_version: PROTOCOL_VERSION, role }
}

/// Whom the first message announces to the node `own`: it has to be a hello, of the same
/// version, from another node.
pub open spec fn announced(own: NodeId, first: Message) -> Result<(NodeId, PeerRole), ConnFault> {
    match first {
        Message::Hello { node_id, protocol_version, role } => if protocol_version
            != PROTOCOL_VERSION {
            Err(ConnFault::Failed(version_text(protocol_version as nat)))
        } else if node_id == own {
            Err(ConnFault::SelfConnection)
        } else {
            Ok((node_id, role))
        },
        _ => Err(ConnFault::Failed("peer did not send hello first"@)),
    }
}

/// Whom the first message announces.
pub fn meet(own_id: NodeId, first: &Message) -> (r: Result<(NodeId, PeerRole), ConnError>)
    ensures
        match (r, announced(own_id, *first)) {
            (Ok(a), Ok(b)) => a == b,
            (Err(a), Err(b)) => a@ == b,
            _ => false,
        },
{
    match first {
        Message::Hello { node_id, protocol_version, role } => {
            match check_protocol_version(*protocol_version) {
                Err(e) => {
                    return Err(ConnError::Failed(e));
                },
                Ok(()) => {},
            }
            if *node_id == own_id {
                return Err(ConnError::SelfConnection(SelfConnection));
            }
            Ok((*node_id, *role))
        },
        _ => Err(ConnError::Failed("peer did not send hello first".to_string())),
    }
}

/// How a task of a connection ended.
pub enum Joined {
    /// It returned.
    Done(Result<(), String>),
    /// It was cancelled.
    Cancelled,
    /// It panicked.
    Panicked(String),
}

/// The outcome of a connection whose task ended: one that was cancelled is no failure.
pub open spec fn outcome(j: Joined) -> Result<(), Seq<char>> {
    match j {
        Joined::Done(Ok(())) => Ok(()),
        Joined::Done(Err(e)) => Err(e@),
        Joined::Cancelled => Ok(()),
        Joined::Panicked(e) => Err("connection task panicked: "@ + e@),
    }
}

/// The outcome of a connection whose task ended.
pub fn flatten(j: Joined) -> (r: Result<(), String>)
    ensures
        match (r, outcome(j)) {
            (Ok(()), Ok(())) => true,
            (Err(a), Err(b)) => a@ == b,
            _ => false,
        },
{
    match j {
        Joined::Done(r) => r,
        Joined::Cancelled => Ok(()),
        Joined::Panicked(e) => {
            let mut s = "connection task panicked: ".to_string();
            s.append(e.as_str());
            Err(s)
        },
    }
}

/// How far a connection has come.
#[derive(Debug, Clone, Copy, PartialEq, Eq, Structural)]
pub enum ConnPhase {
    /// The handshake and the hello exchange are under way.
    Greeting,
    /// The connection is registered under this number.
    Running { remote: NodeId, conn: u64 },
    /// The connection is over.
    Over,
}

/// What happens on a connection.
pub enum ConnEvent {
    /// The handshake and the hello exchange took too long.
    TimedOut,
    /// The handshake or the hello exchange failed.
    Failed(String),
    /// The first message came.
    First(Message),
    /// A later message came.
    Inbound(Message),
    /// The reading or the writing task ended.
    Ended(Joined),
    /// The connection was given up from outside.
    Dropped,
}

/// What a connection does next.
pub enum ConnAction {
    /// Start reading and writing; where the node just joined the mesh, announce it.
    Run { remote: NodeId, joined: bool },
    /// Hand this message to the engine.
    Deliver(NodeId, Message),
    /// The connection is over.
    End(Result<(), ConnError>),
}

/// Whether an event can happen in a phase.
pub open spec fn can_happen(phase: ConnPhase, event: ConnEvent) -> bool {
    match event {
        ConnEvent::TimedOut | ConnEvent::Failed(_) | ConnEvent::First(_) => phase is Greeting,
        ConnEvent::Inbound(_) | ConnEvent::Ended(_) => phase is Running,
        ConnEvent::Dropped => !(phase is Over),
    }
}

/// Whether a connection ended as `r` says.
pub open spec fn ended_with(action: ConnAction, r: Result<(), ConnFault>) -> bool {
    match (action, r) {
        (ConnAction::End(Ok(())), Ok(())) => true,
        (ConnAction::End(Err(e)), Err(f)) => e@ == f,
        _ => false,
    }
}

/// One step of a connection. It is registered once the hello exchange names another node
/// of the same version, and unregistered on every way out from there.
pub fn run_connection(mesh: &mut Mesh, phase: ConnPhase, event: ConnEvent) -> (r: (
    ConnPhase,
    ConnAction,
))
    requires
        old(mesh).wf(),
        event is First ==> old(mesh).next() < u64::MAX,
        can_happen(phase, event),
    ensures
        final(mesh).wf(),
        final(mesh).own() == old(mesh).own(),
        match event {
            ConnEvent::TimedOut => {
                &&& r.0 is Over
                &&& ended_with(
                    r.1,
                    Err(ConnFault::Failed("handshake/hello exchange timed out"@)),
                )
                &&& *final(mesh) == *old(mesh)
            },
            ConnEvent::Failed(e) => {
                &&& r.0 is Over
                &&& ended_with(r.1, Err(ConnFault::Failed(e@)))
                &&& *final(mesh) == *old(mesh)
            },
            ConnEvent::First(first) => match announced(old(mesh).own(), first) {
                Err(f) => {
                    &&& r.0 is Over
                    &&& ended_with(r.1, Err(f))
                    &&& *final(mesh) == *old(mesh)
                },
                Ok((remote, role)) => {
                    let conn = old(mesh).next();
                    &&& r.0 == (ConnPhase::Running { remote, conn })
                    &&& r.1 == (ConnAction::Run {
                        remote,
                        joined: role == PeerRole::Peer && peer_conn(
                            old(mesh).conns(remote),
                        ) is None,
                    })
                    &&& final(mesh).next() == conn + 1
                    &&& final(mesh).peers() == (if old(mesh).conns(remote).len() > 0 {
                        old(mesh).peers()
                    } else {
                        old(mesh).peers().push(remote)
                    })
                    &&& final(mesh).conns(remote) == old(mesh).conns(remote).push(
                        (Conn { id: conn, role }),
                    )
                    &&& forall|p: NodeId|
                        p != remote ==> (#[trigger] final(mesh).conns(p)) == old(mesh).conns(p)
                },
            },
            ConnEvent::Inbound(m) => {
                &&& r.0 == phase
                &&& r.1 == ConnAction::Deliver(phase->remote, m)
                &&& *final(mesh) == *old(mesh)
            },
            ConnEvent::Ended(_) | ConnEvent::Dropped => {
                &&& r.0 is Over
                &&& ended_with(
                    r.1,
                    match event {
                        ConnEvent::Ended(j) => match outcome(j) {
                            Ok(()) => Ok(()),
                            Err(e) => Err(ConnFault::Failed(e)),
                        },
                        _ => Ok(()),
                    },
                )
                &&& match phase {
                    ConnPhase::Running { remote, conn } => {
                        &&& final(mesh).next() == old(mesh).next()
                        &&& final(mesh).peers() == (if old(mesh).conns(remote).len() > 0
                            && final(mesh).conns(remote).len() == 0 {
                            old(mesh).peers().remove_value(remote)
                        } else {
                            old(mesh).peers()
                        })
                        &&& final(mesh).conns(remote) == without(old(mesh).conns(remote), conn)
                        &&& forall|p: NodeId|
                            p != remote ==> (#[trigger] final(mesh).conns(p)) == old(mesh).conns(
                                p,
                            )
                    },
                    _ => *final(mesh) == *old(mesh),
                }
            },
        },
{
    match event {
        ConnEvent::TimedOut => (
            ConnPhase::Over,
            ConnAction::End(
                Err(ConnError::Failed("handshake/hello exchange timed out".to_string())),
            ),
        ),
        ConnEvent::Failed(e) => (ConnPhase::Over, ConnAction::End(Err(ConnError::Failed(e)))),
        ConnEvent::First(first) => {
            match meet(mesh.own_id(), &first) {
                Err(e) => (ConnPhase::Over, ConnAction::End(Err(e))),
                Ok((remote, role)) => {
                    let added = mesh.register(remote, role);
                    (
                        ConnPhase::Running { remote, conn: added.id },
                        ConnAction::Run { remote, joined: added.joined },
                    )
                },
            }
        },
        ConnEvent::Inbound(m) => {
            match phase {
                ConnPhase::Running { remote, .. } => (phase, ConnAction::Deliver(remote, m)),
                _ => (phase, ConnAction::End(Ok(()))),
            }
        },
        ConnEvent::Ended(j) => {
            if let ConnPhase::Running { remote, conn } = phase {
                let _ = mesh.unregister(remote, conn);
            }
            let end = match flatten(j) {
                Ok(()) => Ok(()),
                Err(e) => Err(ConnError::Failed(e)),
            };
            (ConnPhase::Over, ConnAction::End(end))
        },
        ConnEvent::Dropped => {
            if let ConnPhase::Running { remote, conn } = phase {
                let _ = mesh.unregister(remote, conn);
            }
            (ConnPhase::Over, ConnAction::End(Ok(())))
        },
    }
}

/// A connection that is over has left the table: none of the connections that are left to
/// its node has its number.
pub proof fn a_connection_that_is_over_is_unregistered(conns: Seq<Conn>, conn: u64, k: int)
    requires
        0 <= k < without(conns, conn).len(),
    ensures
        without(conns, conn)[k].id != conn,
{
    crate::mesh::an_unregistered_connection_is_gone(conns, conn);
}

} // verus!
