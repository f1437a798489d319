use clipmesh::mesh::Mesh;
use clipmesh::peer::{
    check_protocol_version, flatten, hello, max_message, meet, run_connection, ConnAction,
    ConnError, ConnEvent, ConnPhase, Joined, SelfConnection,
};
use clipmesh::protocol::{Message, PeerRole, Version, PROTOCOL_VERSION};

#[test]
fn first_connection_emits_a_connect_event_standby_does_not() {
    let mut mesh = Mesh::new(1);
    assert!(mesh.register(7, PeerRole::Peer).joined);
    // a duplicate (standby) connection must not re-trigger resync
    assert!(!mesh.register(7, PeerRole::Peer).joined);
}

#[test]
fn send_to_reaches_only_the_target_peer() {
    let mut mesh = Mesh::new(1);
    let a = mesh.register(7, PeerRole::Peer).id;
    let b = mesh.register(8, PeerRole::Peer).id;
    assert_eq!(mesh.send_to(7), Some(a));
    assert_eq!(mesh.send_to(8), Some(b));
    assert_ne!(a, b);
    assert_eq!(mesh.send_to(9), None);
}

#[test]
fn broadcast_uses_only_the_designated_connection_per_peer() {
    let mut mesh = Mesh::new(1);
    let c1 = mesh.register(7, PeerRole::Peer).id;
    let c2 = mesh.register(7, PeerRole::Peer).id;
    assert_eq!(
        mesh.broadcast(),
        [(7, c1)],
        "standby connection must not receive sends"
    );
    // failover: drop the designated connection, standby is promoted
    assert!(!mesh.unregister(7, c1));
    assert_eq!(mesh.broadcast(), [(7, c2)]);
}

#[test]
fn broadcast_reaches_each_peer_exactly_once() {
    let mut mesh = Mesh::new(1);
    let a = mesh.register(7, PeerRole::Peer).id;
    let b = mesh.register(8, PeerRole::Peer).id;
    let mut sent = mesh.broadcast();
    sent.sort_unstable();
    assert_eq!(sent, [(7, a), (8, b)]);
}

#[test]
fn unregistering_the_last_connection_removes_the_peer() {
    let mut mesh = Mesh::new(1);
    let c = mesh.register(7, PeerRole::Peer).id;
    assert_eq!(mesh.peer_count(), 1);
    assert!(mesh.unregister(7, c));
    assert_eq!(mesh.peer_count(), 0);
}

#[test]
fn a_paster_is_answered_but_not_broadcast_to() {
    let mut mesh = Mesh::new(1);
    let paster = mesh.register(7, PeerRole::Paster);
    assert!(!paster.joined, "a paster is not resynced");
    assert!(mesh.broadcast().is_empty());
    assert_eq!(mesh.send_to(7), Some(paster.id));
}

#[test]
fn every_mesh_has_an_id_of_its_own() {
    assert_eq!(Mesh::new(42).own_id(), 42);
    assert_ne!(Mesh::fresh().own_id(), Mesh::fresh().own_id());
    for _ in 0..64 {
        let id = Mesh::fresh().own_id();
        assert_eq!((id >> 76) & 0xf, 4, "the version of {id:032x}");
        assert_eq!((id >> 62) & 0x3, 2, "the variant of {id:032x}");
    }
}

#[test]
fn matching_protocol_version_is_accepted() {
    assert!(check_protocol_version(PROTOCOL_VERSION).is_ok());
}

#[test]
fn mismatched_protocol_version_is_rejected() {
    let err = check_protocol_version(PROTOCOL_VERSION.wrapping_add(1)).unwrap_err();
    assert!(err.contains("protocol version mismatch"), "got: {err}");
}

fn hello_from(node_id: u128) -> Message {
    hello(node_id, PeerRole::Peer)
}

/// Opens a connection with the first message that comes over it.
fn open(mesh: &mut Mesh, first: Message) -> (ConnPhase, ConnAction) {
    run_connection(mesh, ConnPhase::Greeting, ConnEvent::First(first))
}

fn rules(body: &str) -> Message {
    Message::Rules {
        version: Version::new(1, 2),
        body: body.to_string(),
    }
}

#[test]
fn peers_exchange_hello_and_clip_messages() {
    let mut mesh_a = Mesh::new(1);
    let mut mesh_b = Mesh::new(2);
    let (phase_a, run_a) = open(&mut mesh_a, hello_from(mesh_b.own_id()));
    let (_, run_b) = open(&mut mesh_b, hello_from(mesh_a.own_id()));
    assert!(matches!(run_a, ConnAction::Run { remote: 2, joined: true }));
    assert!(matches!(run_b, ConnAction::Run { remote: 1, joined: true }));
    assert_eq!(mesh_a.peer_ids(), vec![mesh_b.own_id()]);
    assert_eq!(mesh_b.peer_ids(), vec![mesh_a.own_id()]);
    let (phase, action) = run_connection(
        &mut mesh_a,
        phase_a,
        ConnEvent::Inbound(rules("over the wire")),
    );
    assert_eq!(phase, phase_a);
    match action {
        ConnAction::Deliver(from, message) => {
            assert_eq!(from, mesh_b.own_id());
            assert_eq!(message, rules("over the wire"));
        }
        _ => panic!("a message is delivered"),
    }
}

#[test]
fn self_connection_is_rejected() {
    let mut mesh = Mesh::new(1);
    let (phase, action) = open(&mut mesh, hello_from(1));
    assert_eq!(phase, ConnPhase::Over);
    // the error must be typed so dial loops can stop retrying for good
    assert!(matches!(
        action,
        ConnAction::End(Err(ConnError::SelfConnection(SelfConnection)))
    ));
    assert_eq!(mesh.peer_count(), 0);
}

#[test]
fn connection_unregisters_when_the_wire_drops() {
    let mut mesh = Mesh::new(1);
    let (phase, _) = open(&mut mesh, hello_from(2));
    assert_eq!(mesh.peer_count(), 1);
    let lost = Joined::Done(Err("connection reset".to_string()));
    let (phase, action) = run_connection(&mut mesh, phase, ConnEvent::Ended(lost));
    assert_eq!(phase, ConnPhase::Over);
    match action {
        ConnAction::End(Err(e)) => assert!(e.message().contains("connection reset")),
        _ => panic!("the cause is passed on"),
    }
    assert_eq!(mesh.peer_count(), 0);
}

#[test]
fn cancelling_a_connection_unregisters_its_peer() {
    let mut mesh = Mesh::new(1);
    let (phase, _) = open(&mut mesh, hello_from(2));
    assert_eq!(mesh.peer_count(), 1);
    let (_, action) = run_connection(&mut mesh, phase, ConnEvent::Dropped);
    assert!(matches!(action, ConnAction::End(Ok(()))));
    assert_eq!(mesh.peer_count(), 0);
}

#[test]
fn handshake_times_out_on_a_silent_peer() {
    let mut mesh = Mesh::new(1);
    let (_, action) = run_connection(&mut mesh, ConnPhase::Greeting, ConnEvent::TimedOut);
    assert!(matches!(action, ConnAction::End(Err(_))));
    assert_eq!(mesh.peer_count(), 0);
}

#[test]
fn whoever_does_not_say_hello_first_is_turned_away() {
    assert!(meet(1, &rules("x")).is_err());
    assert_eq!(meet(1, &hello(2, PeerRole::Paster)).unwrap(), (2, PeerRole::Paster));
    let older = Message::Hello {
        node_id: 2,
        protocol_version: PROTOCOL_VERSION - 1,
        role: PeerRole::Peer,
    };
    assert!(meet(1, &older).is_err());
}

#[test]
fn a_cancelled_task_is_no_failure() {
    assert!(flatten(Joined::Cancelled).is_ok());
    assert!(flatten(Joined::Done(Ok(()))).is_ok());
    assert_eq!(
        flatten(Joined::Panicked("boom".to_string())).unwrap_err(),
        "connection task panicked: boom"
    );
    assert_eq!(max_message(1000), 66_536);
}
