use clipmesh::backoff::{Nanos, SECOND};
use clipmesh::config::Config;
use clipmesh::node::{
    bind_failure, spawn_node, DialAction, DialEnd, DialEvent, Dialer, Inbound, HEALTHY,
    MAX_INBOUND_CONNECTIONS,
};

#[test]
fn bind_conflict_reports_already_in_use_with_a_hint() {
    let msg = bind_failure("127.0.0.1:48100", true, "Address already in use");
    assert!(msg.contains("already in use"), "got: {msg}");
    assert!(msg.contains("another clipmesh"), "got: {msg}");
    assert!(
        msg.contains("48100"),
        "hint should name the port: {msg}"
    );
    assert!(msg.contains("'sport = :48100'"), "got: {msg}");
    let other = bind_failure("127.0.0.1:80", false, "Permission denied");
    assert_eq!(other, "binding 127.0.0.1:80: Permission denied");
}

#[test]
fn a_started_node_listens_dials_and_knows_nobody() {
    let mut cfg = Config::for_test("s");
    cfg.peers = vec!["a:1".to_string(), "b:2".to_string()];
    let node = spawn_node(&cfg);
    assert_eq!(node.listen, "127.0.0.1:0");
    assert_eq!(node.peers, ["a:1", "b:2"]);
    assert_eq!(node.mesh.peer_count(), 0);
}

#[test]
fn the_number_of_inbound_connections_is_bounded() {
    let mut inbound = Inbound::new();
    for _ in 0..MAX_INBOUND_CONNECTIONS {
        assert!(inbound.take());
    }
    assert!(!inbound.take());
    inbound.release();
    assert!(inbound.take());
}

fn pause_of(action: DialAction) -> (Nanos, bool) {
    match action {
        DialAction::Rest { wait, warn } => (wait, warn),
        other => panic!("{other:?}"),
    }
}

#[test]
fn the_pauses_grow_up_to_a_cap_with_some_jitter() {
    let mut dialer = Dialer::new();
    for (n, seconds) in [1u128, 2, 4, 5, 5, 5].into_iter().enumerate() {
        let (wait, warn) = pause_of(dialer.dial_loop(DialEvent::Unreachable));
        let base = seconds * SECOND;
        assert!(base <= wait && wait <= base + base / 2, "{wait}");
        assert_eq!(warn, n == 0, "only the first failure of a streak is worth a warning");
        assert_eq!(dialer.dial_loop(DialEvent::Rested), DialAction::Dial);
    }
    let mut exact = Dialer::new();
    assert_eq!(exact.pause_with(0), SECOND);
    assert_eq!(exact.pause_with(1000), 3 * SECOND);
}

#[test]
fn a_jitter_is_drawn_anew_each_time() {
    let drawn: Vec<Nanos> = (0..40).map(|_| Dialer::new().pause()).collect();
    assert!(drawn.iter().any(|d| *d != drawn[0]), "{drawn:?}");
}

#[test]
fn a_healthy_connection_starts_the_pauses_over() {
    let mut dialer = Dialer::new();
    for _ in 0..4 {
        dialer.dial_loop(DialEvent::Unreachable);
    }
    assert_eq!(dialer.dial_loop(DialEvent::Connected), DialAction::Run);
    let short = DialEvent::Ended {
        end: DialEnd::Ended,
        lived: HEALTHY - 1,
    };
    let (wait, _) = pause_of(dialer.dial_loop(short));
    assert!(wait >= 5 * SECOND, "a short life counts as a failure");
    let long = DialEvent::Ended {
        end: DialEnd::Ended,
        lived: HEALTHY,
    };
    let (wait, warn) = pause_of(dialer.dial_loop(long));
    assert!(wait < 2 * SECOND);
    assert!(!warn);
}

#[test]
fn an_address_of_ones_own_is_given_up() {
    let mut dialer = Dialer::new();
    let own = DialEvent::Ended {
        end: DialEnd::SelfConnection,
        lived: 0,
    };
    assert_eq!(dialer.dial_loop(own), DialAction::GiveUp);
}
