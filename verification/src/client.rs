//! One-shot mesh request: dial a node as a paster, ask one question, wait for its
//! answer.

use crate::node_id::NodeId;
use vstd::prelude::*;

verus! {

/// What happens while a question is waiting for its answer.
pub enum AskEvent<T> {
    /// The time is over.
    Deadline,
    /// The connection ended, with its error if it failed.
    Ended(Option<String>),
    /// The connection to this node is registered: its writer is live.
    Connected(NodeId),
    /// A message came: the answer, or nothing that answers this question.
    Inbound(Option<T>),
    /// No more messages will come.
    InboundClosed,
}

/// What a question does next.
pub enum AskStep<T> {
    /// Send the question to this node, and wait.
    Ask(NodeId),
    /// Wait.
    Wait,
    /// This is the answer.
    Answer(T),
    /// There is no answer.
    Fail(String),
}

/// Why there is no answer when the time is over.
pub open spec fn timeout_message(addr: Seq<char>, timeout: Seq<char>, what: Seq<char>) -> Seq<
    char,
> {
    "no reply from "@ + addr + " within "@ + timeout
        + " — it may still be transferring a large "@ + what + " over a slow link"@
}

/// Why there is no answer when the connection ended.
pub open spec fn ended_message(addr: Seq<char>, error: Option<Seq<char>>) -> Seq<char> {
    match error {
        None => "connection to "@ + addr + " closed before answering"@,
        Some(e) => "connecting to clipmesh node "@ + addr + ": "@ + e,
    }
}

/// Why there is no answer when no message can come any more.
pub open spec fn closed_message(addr: Seq<char>) -> Seq<char> {
    "connection to "@ + addr + " closed unexpectedly"@
}

/// Why a node cannot be asked.
pub open spec fn unreachable_message(addr: Seq<char>) -> Seq<char> {
    "couldn't reach clipmesh node "@ + addr
}

/// Says that a node cannot be reached.
pub fn unreachable(addr: &str) -> (r: String)
    ensures
        r@ == unreachable_message(addr@),
{
    let mut s = "couldn't reach clipmesh node ".to_string();
    s.append(addr);
    s
}

/// One step of a question to `addr`: asks once connected, takes the first answer, and
/// surfaces the connection's own error rather than a timeout. `what` names the thing
/// asked for.
pub fn ask<T>(addr: &str, timeout: &str, what: &str, event: AskEvent<T>) -> (r: AskStep<T>)
    ensures
        match event {
            AskEvent::Deadline => r matches AskStep::Fail(e) && e@ == timeout_message(
                addr@,
                timeout@,
                what@,
            ),
            AskEvent::Ended(None) => r matches AskStep::Fail(e) && e@ == ended_message(addr@, None),
            AskEvent::Ended(Some(cause)) => r matches AskStep::Fail(e) && e@ == ended_message(
                addr@,
                Some(cause@),
            ),
            AskEvent::Connected(node) => r == AskStep::<T>::Ask(node),
            AskEvent::Inbound(Some(answer)) => r == AskStep::Answer(answer),
            AskEvent::Inbound(None) => r == AskStep::<T>::Wait,
            AskEvent::InboundClosed => r matches AskStep::Fail(e) && e@ == closed_message(addr@),
        },
{
    match event {
        AskEvent::Deadline => {
            let mut s = "no reply from ".to_string();
            s.append(addr);
            s.append(" within ");
            s.append(timeout);
            s.append(" — it may still be transferring a large ");
            s.append(what);
            s.append(" over a slow link");
            AskStep::Fail(s)
        },
        AskEvent::Ended(None) => {
            let mut s = "connection to ".to_string();
            s.append(addr);
            s.append(" closed before answering");
            AskStep::Fail(s)
        },
        AskEvent::Ended(Some(cause)) => {
            let mut s = "connecting to clipmesh node ".to_string();
            s.append(addr);
            s.append(": ");
            s.append(cause.as_str());
            AskStep::Fail(s)
        },
        AskEvent::Connected(node) => AskStep::Ask(node),
        AskEvent::Inbound(Some(answer)) => AskStep::Answer(answer),
        AskEvent::Inbound(None) => AskStep::Wait,
        AskEvent::InboundClosed => {
            let mut s = "connection to ".to_string();
            s.append(addr);
            s.append(" closed unexpectedly");
            AskStep::Fail(s)
        },
    }
}

} // verus!
