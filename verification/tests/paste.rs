use clipmesh::client::{ask, AskEvent, AskStep};
use clipmesh::clipboard::narrow;
use clipmesh::config::{Config, RawConfig};
use clipmesh::offer::Offer;
use clipmesh::paste::{
    fetch_from_any, fetch_offer, interpret, list_types, narrowing, output_bytes, render,
    resolve_targets, select_type, FetchEvent, FetchStep, PasteArgs,
};
use clipmesh::protocol::{GetResult, GetWant, Message, SelectionKind, Unavailable, Version};

fn offer(pairs: &[(&str, &[u8])]) -> Offer {
    pairs
        .iter()
        .map(|(m, b)| (m.to_string(), b.to_vec()))
        .collect()
}

// ---- select_type ----

#[test]
fn select_type_prefers_utf8_text_plain() {
    let o = offer(&[
        ("text/html", b"<b>"),
        ("text/plain", b"x"),
        ("text/plain;charset=utf-8", b"y"),
    ]);
    assert_eq!(select_type(None, &o).unwrap(), "text/plain;charset=utf-8");
}

#[test]
fn select_type_falls_back_plain_then_text_then_first() {
    // text/plain when there's no charset=utf-8 variant
    let o = offer(&[("text/html", b"<b>"), ("text/plain", b"x")]);
    assert_eq!(select_type(None, &o).unwrap(), "text/plain");
    // first text/* when there's no text/plain at all
    let o = offer(&[("image/png", b"\x89"), ("text/html", b"<b>")]);
    assert_eq!(select_type(None, &o).unwrap(), "text/html");
    // first offered type when nothing is textual
    let o = offer(&[("image/png", b"\x89"), ("application/pdf", b"%PDF")]);
    assert_eq!(select_type(None, &o).unwrap(), "image/png");
}

#[test]
fn select_type_honours_an_explicit_request_case_insensitively() {
    let o = offer(&[("text/plain", b"x"), ("image/PNG", b"\x89")]);
    assert_eq!(select_type(Some("image/png"), &o).unwrap(), "image/PNG");
}

#[test]
fn select_type_errors_when_requested_type_absent() {
    let o = offer(&[("text/plain", b"x")]);
    let err = select_type(Some("image/png"), &o).unwrap_err();
    assert!(err.contains("not offered"), "got: {err}");
}

#[test]
fn select_type_errors_on_empty_offer() {
    assert!(select_type(None, &Offer::new()).is_err());
}

#[test]
fn a_client_finds_what_a_node_narrowed_to() {
    let whole = offer(&[
        ("text/html", b"<b>"),
        ("image/PNG", b"first"),
        ("image/png", b"second"),
    ]);
    let left = narrow(&whole, "IMAGE/png");
    assert_eq!(left, offer(&[("image/PNG", b"first"), ("image/png", b"second")]));
    assert_eq!(select_type(Some("IMAGE/png"), &whole).unwrap(), "image/PNG");
    assert_eq!(select_type(Some("IMAGE/png"), &left).unwrap(), "image/PNG");
    assert!(narrow(&whole, "text/plain").is_empty());
    assert!(select_type(Some("text/plain"), &whole).is_err());
}

// ---- list_types ----

#[test]
fn list_types_lists_keys_in_advertise_order() {
    let o = offer(&[("text/html", b"<b>"), ("text/plain", b"x")]);
    assert_eq!(list_types(&o), "text/html\ntext/plain\n");
}

// ---- render ----

#[test]
fn render_appends_newline_for_text_by_default() {
    assert_eq!(render(b"hi".to_vec(), "text/plain", false), b"hi\n");
    assert_eq!(
        render(b"hi".to_vec(), "text/plain;charset=utf-8", false),
        b"hi\n"
    );
}

#[test]
fn render_suppresses_newline_for_text_with_no_newline() {
    assert_eq!(render(b"hi".to_vec(), "text/plain", true), b"hi");
}

#[test]
fn render_never_appends_newline_for_binary() {
    let png = vec![0x89, b'P', b'N', b'G'];
    assert_eq!(render(png.clone(), "image/png", false), png);
}

#[test]
fn render_is_binary_safe() {
    let data = vec![0u8, 0xff, 0x00, 0x80];
    assert_eq!(
        render(data.clone(), "application/octet-stream", false),
        data
    );
}

// ---- PasteArgs::parse ----

fn args(v: &[&str]) -> Vec<String> {
    v.iter().map(|s| s.to_string()).collect()
}

#[test]
fn parse_defaults_to_clipboard_and_auto_type() {
    let a = PasteArgs::parse(&[]).unwrap();
    assert_eq!(a.kind, SelectionKind::Clipboard);
    assert_eq!(a.type_, None);
    assert!(!a.list);
    assert!(!a.no_newline);
    assert_eq!(a.node, None);
    assert_eq!(a.config, None);
}

#[test]
fn parse_maps_short_flags() {
    let a = PasteArgs::parse(&args(&[
        "-p",
        "-l",
        "-n",
        "-t",
        "image/png",
        "--node",
        "host:9",
        "--config",
        "/c.toml",
    ]))
    .unwrap();
    assert_eq!(a.kind, SelectionKind::Selection);
    assert!(a.list);
    assert!(a.no_newline);
    assert_eq!(a.type_.as_deref(), Some("image/png"));
    assert_eq!(a.node.as_deref(), Some("host:9"));
    assert_eq!(a.config, Some("/c.toml".to_string()));
}

#[test]
fn parse_maps_long_flags() {
    let a = PasteArgs::parse(&args(&[
        "--primary",
        "--list-types",
        "--no-newline",
        "--type",
        "text/plain",
    ]))
    .unwrap();
    assert_eq!(a.kind, SelectionKind::Selection);
    assert!(a.list);
    assert!(a.no_newline);
    assert_eq!(a.type_.as_deref(), Some("text/plain"));
}

#[test]
fn parse_rejects_watch() {
    let err = PasteArgs::parse(&args(&["--watch"])).unwrap_err();
    assert!(err.contains("not supported"), "got: {err}");
    assert!(PasteArgs::parse(&args(&["-w"])).is_err());
}

#[test]
fn parse_rejects_unknown_flag() {
    assert!(PasteArgs::parse(&args(&["--bogus"])).is_err());
}

#[test]
fn parse_errors_on_a_missing_flag_value() {
    assert!(PasteArgs::parse(&args(&["-t"])).is_err());
    assert!(PasteArgs::parse(&args(&["--node"])).is_err());
}

// ---- resolve_targets ----

fn cfg_with(peers: &[&str]) -> Config {
    let mut raw = RawConfig::new("0.0.0.0".to_string());
    raw.port = Some(48100);
    raw.psk = Some("s".to_string());
    raw.peers = Some(args(peers));
    Config::from_toml(raw, String::new(), None).unwrap_or_else(|e| panic!("{}", e.message()))
}

fn paste_args_node(node: Option<&str>) -> PasteArgs {
    PasteArgs {
        kind: SelectionKind::Clipboard,
        type_: None,
        list: false,
        no_newline: false,
        node: node.map(|s| s.to_string()),
        config: None,
    }
}

#[test]
fn resolve_targets_uses_only_node_and_applies_the_config_port() {
    let cfg = cfg_with(&["desktop", "laptop"]);
    // --node wins (peers ignored); a bare host gets the configured port
    assert_eq!(
        resolve_targets(&paste_args_node(Some("box")), &cfg).unwrap(),
        vec!["box:48100"]
    );
    // an explicit port on --node is kept
    assert_eq!(
        resolve_targets(&paste_args_node(Some("box:7000")), &cfg).unwrap(),
        vec!["box:7000"]
    );
}

#[test]
fn resolve_targets_defaults_to_every_peer() {
    let cfg = cfg_with(&["desktop", "laptop:9"]);
    assert_eq!(
        resolve_targets(&paste_args_node(None), &cfg).unwrap(),
        // peers are already port-resolved by Config
        vec!["desktop:48100", "laptop:9"]
    );
}

#[test]
fn resolve_targets_errors_without_node_or_peers() {
    let cfg = cfg_with(&[]);
    assert!(resolve_targets(&paste_args_node(None), &cfg).is_err());
}

// ---- output_bytes ----

fn paste_args(type_: Option<&str>, list: bool, no_newline: bool) -> PasteArgs {
    PasteArgs {
        kind: SelectionKind::Clipboard,
        type_: type_.map(|s| s.to_string()),
        list,
        no_newline,
        node: None,
        config: None,
    }
}

#[test]
fn output_bytes_lists_types_with_l() {
    let o = offer(&[("text/html", b"<b>"), ("text/plain", b"x")]);
    let pa = paste_args(None, true, false);
    assert_eq!(output_bytes(&pa, o).unwrap(), b"text/html\ntext/plain\n");
}

#[test]
fn output_bytes_auto_selects_and_appends_newline() {
    let o = offer(&[("image/png", b"\x89"), ("text/plain", b"hi")]);
    let pa = paste_args(None, false, false);
    assert_eq!(output_bytes(&pa, o).unwrap(), b"hi\n");
}

#[test]
fn output_bytes_explicit_binary_type_is_verbatim() {
    let png = vec![0x89u8, b'P', b'N', b'G'];
    let o: Offer = [("image/png".to_string(), png.clone())]
        .into_iter()
        .collect();
    let pa = paste_args(Some("image/png"), false, false);
    assert_eq!(output_bytes(&pa, o).unwrap(), png);
}

#[test]
fn output_bytes_errors_when_requested_type_absent() {
    let o = offer(&[("text/plain", b"x")]);
    let pa = paste_args(Some("image/png"), false, false);
    assert!(output_bytes(&pa, o).is_err());
}

// ---- the request and its answer ----

#[test]
fn a_paste_asks_for_no_more_than_it_prints() {
    assert_eq!(narrowing(&paste_args(None, false, false)), GetWant::All);
    assert_eq!(
        narrowing(&paste_args(Some("a/b"), false, false)),
        GetWant::One("a/b".to_string())
    );
    assert_eq!(narrowing(&paste_args(Some("a/b"), true, false)), GetWant::TypesOnly);
}

#[test]
fn every_answer_that_holds_no_content_says_why() {
    let kind = SelectionKind::Clipboard;
    let answers = [
        GetResult::Unavailable(Unavailable::Empty),
        GetResult::Unavailable(Unavailable::NotSynced),
        GetResult::Unavailable(Unavailable::Sensitive),
        GetResult::Unavailable(Unavailable::Denied),
        GetResult::Unavailable(Unavailable::TooLarge),
        GetResult::Unavailable(Unavailable::Unreadable),
        GetResult::NotOffered {
            available: args(&["text/plain"]),
        },
    ];
    let said: Vec<String> = answers
        .into_iter()
        .map(|a| interpret(a, "h:1", kind).unwrap_err())
        .collect();
    for (i, a) in said.iter().enumerate() {
        assert!(!a.is_empty());
        for b in &said[i + 1..] {
            assert_ne!(a, b);
        }
    }
    assert!(said[6].contains("text/plain"), "{}", said[6]);
}

#[test]
fn the_first_peer_that_answers_wins_the_race() {
    let mut race = fetch_from_any(&args(&["a", "b"]));
    assert!(race.lost().is_none());
    assert!(race.joined(Err("a is down".to_string())).is_none());
    let o = offer(&[("text/plain", b"x")]);
    assert_eq!(race.joined(Ok(o.clone())), Some(Ok(o)));

    let mut race = fetch_from_any(&args(&["a", "b"]));
    assert!(race.joined(Err("a is down".to_string())).is_none());
    match race.joined(Err("b is down".to_string())) {
        Some(Err(why)) => assert!(why.contains("b is down"), "{why}"),
        other => panic!("{other:?}"),
    }
}

#[test]
fn a_question_is_asked_once_the_node_is_there() {
    assert!(matches!(
        ask::<u8>("h:1", "10s", "a reply", AskEvent::Connected(7)),
        AskStep::Ask(7)
    ));
    assert!(matches!(
        ask("h:1", "10s", "a reply", AskEvent::Inbound(Some(5u8))),
        AskStep::Answer(5)
    ));
    assert!(matches!(
        ask::<u8>("h:1", "10s", "a reply", AskEvent::Inbound(None)),
        AskStep::Wait
    ));
    for event in [
        AskEvent::Deadline,
        AskEvent::Ended(Some("reset".to_string())),
        AskEvent::Ended(None),
        AskEvent::InboundClosed,
    ] {
        match ask::<u8>("h:1", "10s", "a reply", event) {
            AskStep::Fail(why) => assert!(why.contains("h:1"), "{why}"),
            _ => panic!("an ended question fails"),
        }
    }
    assert!(clipmesh::client::unreachable("h:1").contains("h:1"));
}

#[test]
fn a_fetch_takes_the_reply_about_its_selection_only() {
    let kind = SelectionKind::Clipboard;
    let reply = |kind| {
        FetchEvent::Inbound(Message::GetReply {
            kind,
            result: GetResult::Types(vec!["a/b".to_string()]),
        })
    };
    assert!(matches!(
        fetch_offer("h:1", kind, "10s", FetchEvent::Connected(3)),
        FetchStep::Ask(3)
    ));
    assert!(matches!(
        fetch_offer("h:1", kind, "10s", reply(SelectionKind::Selection)),
        FetchStep::Wait
    ));
    let rules = FetchEvent::Inbound(Message::Rules {
        version: Version::new(1, 2),
        body: String::new(),
    });
    assert!(matches!(
        fetch_offer("h:1", kind, "10s", rules),
        FetchStep::Wait
    ));
    match fetch_offer("h:1", kind, "10s", reply(kind)) {
        FetchStep::Done(Ok(o)) => assert_eq!(o, offer(&[("a/b", b"")])),
        _ => panic!("the reply is the outcome"),
    }
    match fetch_offer("h:1", kind, "10s", FetchEvent::Deadline) {
        FetchStep::Done(Err(why)) => {
            assert!(why.contains("no reply from h:1 within 10s"), "{why}")
        }
        _ => panic!("the time is over"),
    }
}
