//! A node: how many connections it takes, and how it keeps dialing its peers.

use crate::backoff::{Nanos, SECOND};
use crate::config::Config;
use crate::mesh::{Conn, Mesh};
use crate::node_id::{is_random_uuid, NodeId};
use crate::text::{chars_of, clone_texts, find_last, last_index, string_of, texts};
use rand::Rng;
use vstd::prelude::*;

verus! {

/// How many inbound connections may be open at once, so that unauthenticated traffic
/// can't exhaust memory with half-open handshakes.
pub const MAX_INBOUND_CONNECTIONS: usize = 64;

/// How long to wait after an incoming connection could not be accepted.
pub const ACCEPT_RETRY: Nanos = 100_000_000;

/// The first pause between two dials.
pub const INITIAL: Nanos = 1_000_000_000;

/// The longest pause between two dials, but for the jitter.
pub const CAP: Nanos = 5_000_000_000;

/// A connection that lived this long is considered healthy.
pub const HEALTHY: Nanos = 30_000_000_000;

/// The inbound connections that are open.
pub struct Inbound {
    open: usize,
}

impl Inbound {
    /// How many are open.
    pub closed spec fn open(&self) -> nat {
        self.open as nat
    }

    /// Never more than the limit are open.
    pub open spec fn wf(&self) -> bool {
        self.open() <= MAX_INBOUND_CONNECTIONS
    }

    /// None is open.
    pub fn new() -> (r: Inbound)
        ensures
            r.wf(),
            r.open() == 0,
    {
        Inbound { open: 0 }
    }

    /// Takes an incoming connection, or refuses it when the limit is reached.
    pub fn take(&mut self) -> (taken: bool)
        requires
            old(self).wf(),
        ensures
            final(self).wf(),
            taken == (old(self).open() < MAX_INBOUND_CONNECTIONS),
            final(self).open() == (if taken {
                old(self).open() + 1
            } else {
                old(self).open()
            }),
    {
        if self.open >= MAX_INBOUND_CONNECTIONS {
            return false;
        }
        self.open = self.open + 1;
        true
    }

    /// A connection that was taken is over.
    pub fn release(&mut self)
        requires
            old(self).wf(),
            old(self).open() > 0,
        ensures
            final(self).wf(),
            final(self).open() == old(self).open() - 1,
    {
        self.open = self.open - 1;
    }
}

/// A node that was started.
pub struct NodeHandle {
    /// The address it listens on.
    pub listen: String,
    /// Its peer table.
    pub mesh: Mesh,
    /// Its inbound connections.
    pub inbound: Inbound,
    /// The addresses that it keeps dialing.
    pub peers: Vec<String>,
}

/// Starts a node: it listens, dials every configured peer, and knows nobody yet.
pub fn spawn_node(cfg: &Config) -> (r: NodeHandle)
    ensures
        r.listen@ == cfg.listen@,
        texts(r.peers@) == texts(cfg.peers@),
        r.inbound.wf(),
        r.inbound.open() == 0,
        r.mesh.wf(),
        is_random_uuid(r.mesh.own()),
        r.mesh.next() == 0,
        r.mesh.peers() == Seq::<NodeId>::empty(),
        forall|p: NodeId| (#[trigger] r.mesh.conns(p)) == Seq::<Conn>::empty(),
{
    NodeHandle {
        listen: cfg.listen.clone(),
        mesh: Mesh::fresh(),
        inbound: Inbound::new(),
        peers: clone_texts(cfg.peers.as_slice()),
    }
}

/// The port in an address: what follows its last colon.
pub open spec fn port_text(listen: Seq<char>) -> Seq<char> {
    listen.skip(last_index(listen, ':') + 1)
}

/// Why the node cannot listen.
pub open spec fn bind_text(listen: Seq<char>, in_use: bool, cause: Seq<char>) -> Seq<char> {
    if in_use {
        "cannot bind "@ + listen
            + ": address already in use. Another process is bound to this port — most likely another clipmesh instance. Check: `ss -tlnp 'sport = :"@
            + port_text(listen)
            + "'`, `systemctl --user status clipmesh`, `pgrep -af clipmesh`."@
    } else {
        "binding "@ + listen + ": "@ + cause
    }
}

/// Why the node cannot listen: an address in use almost always means that another
/// instance is running, which is said, with how to find it.
pub fn bind_failure(listen: &str, in_use: bool, cause: &str) -> (r: String)
    ensures
        r@ == bind_text(listen@, in_use, cause@),
{
    if !in_use {
        let mut s = "binding ".to_string();
        s.append(listen);
        s.append(": ");
        s.append(cause);
        return s;
    }
    let v = chars_of(listen);
    proof {
        crate::text::lemma_last_index(v@, ':');
    }
    let from: usize = match find_last(&v, ':') {
        Some(i) => i + 1,
        None => 0,
    };
    let port = string_of(&v, from, v.len());
    proof {
        assert(v@.subrange(from as int, v@.len() as int) =~= v@.skip(from as int));
    }
    let mut s = "cannot bind ".to_string();
    s.append(listen);
    s.append(
        ": address already in use. Another process is bound to this port — most likely another clipmesh instance. Check: `ss -tlnp 'sport = :",
    );
    s.append(port.as_str());
    s.append("'`, `systemctl --user status clipmesh`, `pgrep -af clipmesh`.");
    s
}

/// How a connection that was dialed ended.
#[derive(Debug, Clone, Copy, PartialEq, Eq, Structural)]
pub enum DialEnd {
    /// It closed or failed.
    Ended,
    /// The address is this node itself.
    SelfConnection,
}

/// Keeps one outbound connection attempt going to a peer. The pause between two dials
/// doubles up to a cap, and starts over after a connection that lived long enough.
pub struct Dialer {
    backoff: Nanos,
    failing: bool,
}

/// The pause after the one of `backoff`.
pub open spec fn longer(backoff: nat) -> nat {
    if 2 * backoff < CAP {
        2 * backoff
    } else {
        CAP as nat
    }
}

/// The pause before the `n`th dial of a streak.
pub open spec fn dial_pause(n: nat) -> nat
    decreases n,
{
    if n == 0 {
        INITIAL as nat
    } else {
        longer(dial_pause((n - 1) as nat))
    }
}

/// `rand::thread_rng` and `Rng::gen_range`: a random number from 0 to `max`.
#[verifier::external_body]
fn random_up_to(max: u64) -> (r: u64)
    ensures
        r <= max,
{
    rand::thread_rng().gen_range(0..=max)
}

impl Dialer {
    /// The next pause, without its jitter.
    pub closed spec fn backoff(&self) -> nat {
        self.backoff as nat
    }

    /// Whether the last dial failed.
    pub closed spec fn failing(&self) -> bool {
        self.failing
    }

    /// The pause is within its bounds.
    pub open spec fn wf(&self) -> bool {
        INITIAL <= self.backoff() <= CAP
    }

    /// Nothing was dialed yet.
    pub fn new() -> (r: Dialer)
        ensures
            r.wf(),
            r.backoff() == dial_pause(0),
            !r.failing(),
    {
        Dialer { backoff: INITIAL, failing: false }
    }

    /// The peer could not be reached. Returns whether that is worth a warning: the first
    /// failure of a streak is.
    pub fn unreachable(&mut self) -> (warn: bool)
        ensures
            warn == !old(self).failing(),
            final(self).failing(),
            final(self).backoff() == old(self).backoff(),
    {
        let warn = !self.failing;
        self.failing = true;
        warn
    }

    /// The peer was reached.
    pub fn connected(&mut self)
        ensures
            !final(self).failing(),
            final(self).backoff() == old(self).backoff(),
    {
        self.failing = false;
    }

    /// The connection ended after it had lived for `lived`. Returns whether to dial again:
    /// not where the address is this node itself.
    pub fn ended(&mut self, end: DialEnd, lived: Nanos) -> (again: bool)
        requires
            old(self).wf(),
        ensures
            final(self).wf(),
            again == (end != DialEnd::SelfConnection),
            final(self).failing() == old(self).failing(),
            final(self).backoff() == (if again && lived >= HEALTHY {
                INITIAL as nat
            } else {
                old(self).backoff()
            }),
    {
        if end == DialEnd::SelfConnection {
            return false;
        }
        if lived >= HEALTHY {
            self.backoff = INITIAL;
        }
        true
    }

    /// How long to wait before the next dial, given its jitter in milliseconds; the pause
    /// after that is twice as long, up to the cap.
    pub fn pause_with(&mut self, jitter_ms: u64) -> (wait: Nanos)
        requires
            old(self).wf(),
            jitter_ms <= old(self).backoff() / 1_000_000 / 2,
        ensures
            final(self).wf(),
            wait == old(self).backoff() + jitter_ms * 1_000_000,
            final(self).backoff() == longer(old(self).backoff()),
            final(self).failing() == old(self).failing(),
    {
        let wait: Nanos = self.backoff + (jitter_ms as u128) * 1_000_000;
        self.backoff = if 2 * self.backoff < CAP {
            2 * self.backoff
        } else {
            CAP
        };
        wait
    }

    /// How long to wait before the next dial, with a random jitter of up to half the pause.
    pub fn pause(&mut self) -> (wait: Nanos)
        requires
            old(self).wf(),
        ensures
            final(self).wf(),
            old(self).backoff() <= wait <= old(self).backoff() + old(self).backoff() / 2,
            final(self).backoff() == longer(old(self).backoff()),
            final(self).failing() == old(self).failing(),
    {
        let half: u64 = (self.backoff / 1_000_000 / 2) as u64;
        let jitter_ms: u64 = random_up_to(half);
        self.pause_with(jitter_ms)
    }
}

/// What happens to a dialer.
#[derive(Debug, Clone, Copy, PartialEq, Eq, Structural)]
pub enum DialEvent {
    /// The peer could not be reached.
    Unreachable,
    /// The peer was reached.
    Connected,
    /// The connection ended after it had lived this long.
    Ended { end: DialEnd, lived: Nanos },
    /// The pause is over.
    Rested,
}

/// What a dialer does next.
#[derive(Debug, Clone, Copy, PartialEq, Eq, Structural)]
pub enum DialAction {
    /// Dial the peer.
    Dial,
    /// Run the connection.
    Run,
    /// Wait this long; where the peer could not be reached, whether to warn of it.
    Rest { wait: Nanos, warn: bool },
    /// The address is this node itself: stop dialing it.
    GiveUp,
}

/// Whether a pause of this length may follow a backoff: with a jitter of up to half of it.
pub open spec fn rests(action: DialAction, backoff: nat, warn: bool) -> bool {
    action matches DialAction::Rest { wait, warn: w } && backoff <= wait <= backoff + backoff / 2
        && w == warn
}

impl Dialer {
    /// One step of keeping an outbound connection to a peer going: takes what happened and
    /// says what to do next.
    pub fn dial_loop(&mut self, event: DialEvent) -> (r: DialAction)
        requires
            old(self).wf(),
        ensures
            final(self).wf(),
            match event {
                DialEvent::Rested => r is Dial && *final(self) == *old(self),
                DialEvent::Connected => {
                    &&& r is Run
                    &&& !final(self).failing()
                    &&& final(self).backoff() == old(self).backoff()
                },
                DialEvent::Unreachable => {
                    &&& rests(r, old(self).backoff(), !old(self).failing())
                    &&& final(self).failing()
                    &&& final(self).backoff() == longer(old(self).backoff())
                },
                DialEvent::Ended { end: DialEnd::SelfConnection, .. } => r is GiveUp
                    && *final(self) == *old(self),
                DialEvent::Ended { end: DialEnd::Ended, lived } => {
                    let backoff = if lived >= HEALTHY {
                        INITIAL as nat
                    } else {
                        old(self).backoff()
                    };
                    &&& rests(r, backoff, false)
                    &&& final(self).failing() == old(self).failing()
                    &&& final(self).backoff() == longer(backoff)
                },
            },
    {
        match event {
            DialEvent::Rested => DialAction::Dial,
            DialEvent::Connected => {
                self.connected();
                DialAction::Run
            },
            DialEvent::Unreachable => {
                let warn = self.unreachable();
                DialAction::Rest { wait: self.pause(), warn }
            },
            DialEvent::Ended { end, lived } => {
                if end == DialEnd::SelfConnection {
                    return DialAction::GiveUp;
                }
                let _ = self.ended(end, lived);
                DialAction::Rest { wait: self.pause(), warn: false }
            },
        }
    }
}

/// The pauses of a streak are 1, 2 and 4 seconds, and 5 from then on.
pub proof fn the_pauses_of_a_streak(n: nat)
    ensures
        dial_pause(n) == (if n == 0 {
            SECOND as nat
        } else if n == 1 {
            2 * SECOND as nat
        } else if n == 2 {
            4 * SECOND as nat
        } else {
            5 * SECOND as nat
        }),
    decreases n,
{
    if n > 0 {
        the_pauses_of_a_streak((n - 1) as nat);
    }
}

} // verus!
