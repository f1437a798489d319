use clipmesh::config::{Config, RawConfig};
use clipmesh::history::{
    age, answer, awaited, content_of, explain, local_addr, render_listing, render_restored,
    request, short_id, target, where_of, Command, HistoryArgs, Outcome, ID_CHARS,
};
use clipmesh::offer::Offer;
use clipmesh::protocol::{
    HistoryEntry, HistoryMiss, HistoryRequest, HistoryResult, SelectionKind, Unavailable,
};

fn args(v: &[&str]) -> Vec<String> {
    v.iter().map(|s| s.to_string()).collect()
}

fn parse(v: &[&str]) -> Result<HistoryArgs, String> {
    HistoryArgs::parse(&args(v))
}

fn entry(n: u8, age_ms: u64, kind: SelectionKind, preview: Option<&str>) -> HistoryEntry {
    HistoryEntry {
        index: n as u32,
        hash: [n; 32],
        kind,
        age_ms,
        bytes: 34,
        types: vec![("text/plain".into(), 34)],
        preview: preview.map(str::to_string),
    }
}

#[test]
fn each_command_parses_with_its_id() {
    assert_eq!(parse(&["list"]).unwrap().command, Command::List);
    assert_eq!(
        parse(&["restore", "3f2a"]).unwrap().command,
        Command::Restore {
            entry: "3f2a".into()
        }
    );
    assert_eq!(
        parse(&["get", "3f2a"]).unwrap().command,
        Command::Get {
            entry: "3f2a".into()
        }
    );
    // A row number works just as well as an id, and which one this is is
    // the node's decision — the client passes it through as typed.
    assert_eq!(
        parse(&["restore", "2"]).unwrap().command,
        Command::Restore { entry: "2".into() }
    );
    // Naming nothing is not optional: a `restore` with nothing to restore
    // would otherwise have to guess, which is what naming exists to prevent.
    assert!(parse(&["restore"]).is_err());
    assert!(parse(&["get"]).is_err());
    assert!(parse(&[]).is_err());
    // A flag is not an id: taking one positionally would "restore" an entry
    // called --config and then report the path as an unknown flag.
    let err = parse(&["restore", "--config", "/c.toml"]).unwrap_err();
    assert!(err.contains("needs the number or id"), "got: {err}");
    // Nor is a second id silently dropped.
    assert!(parse(&["restore", "3f2a", "8b10"]).is_err());
    assert!(parse(&["forget", "3f2a"]).is_err());
    // ...and `list` is told what it actually takes, not about an id syntax
    // it has no form of.
    let err = parse(&["list", "3f2a"]).unwrap_err();
    assert!(err.contains("takes no arguments"), "got: {err}");
}

/// `history get` is `--paste` pointed at an older clipboard, so a spelling
/// that works there must work here — both getopt attached-value forms, with
/// the short one split by position so a value containing `=` survives.
#[test]
fn get_accepts_both_getopt_spellings_of_an_attached_value() {
    for spelling in [
        &["get", "3f", "--type=text/plain;charset=utf-8"][..],
        &["get", "3f", "-ttext/plain;charset=utf-8"][..],
        &["get", "3f", "-t", "text/plain;charset=utf-8"][..],
    ] {
        assert_eq!(
            parse(spelling).unwrap().type_.as_deref(),
            Some("text/plain;charset=utf-8"),
            "{spelling:?}"
        );
    }
}

/// An id may follow its flags, the way it may in any getopt tool.
#[test]
fn an_id_may_come_after_the_flags() {
    let a = parse(&["restore", "--node", "desktop", "3f2a"]).unwrap();
    assert_eq!(
        a.command,
        Command::Restore {
            entry: "3f2a".into()
        }
    );
    assert_eq!(a.node.as_deref(), Some("desktop"));
    let b = parse(&["get", "--type=image/png", "3f2a"]).unwrap();
    assert_eq!(
        b.command,
        Command::Get {
            entry: "3f2a".into()
        }
    );
    assert_eq!(b.type_.as_deref(), Some("image/png"));
}

/// A mistyped short flag whose second character is multi-byte must be an
/// unknown flag, not a panic.
#[test]
fn a_multi_byte_short_flag_is_rejected_rather_than_panicking() {
    let err = parse(&["get", "3f", "-é"]).unwrap_err();
    assert!(err.contains("unknown history flag"), "got: {err}");
}

#[test]
fn output_flags_are_refused_where_there_is_no_output() {
    // Accepting them silently would print a listing to someone who asked for
    // one MIME type, and look like it had answered.
    assert!(parse(&["list", "-t", "text/plain"]).is_err());
    assert!(parse(&["restore", "3f", "-n"]).is_err());
    assert!(parse(&["get", "3f", "-n"]).unwrap().no_newline);
}

#[test]
fn node_and_config_apply_to_every_command() {
    let a = parse(&["list", "--node", "desktop", "--config", "/tmp/c.toml"]).unwrap();
    assert_eq!(a.node.as_deref(), Some("desktop"));
    assert_eq!(a.config, Some("/tmp/c.toml".to_string()));
    assert!(parse(&["list", "--node"]).is_err(), "--node needs a value");
}

fn config(listen: &str) -> Config {
    let mut raw = RawConfig::new(listen.to_string());
    raw.psk = Some("s".to_string());
    raw.peers = Some(args(&["a", "b"]));
    Config::from_toml(raw, String::new(), None).unwrap()
}

#[test]
fn the_default_target_is_this_hosts_own_daemon() {
    // Not "every configured peer, raced" the way --paste defaults: a history
    // is per node, so racing would answer with whichever host replied first.
    let cfg = config("0.0.0.0");
    assert_eq!(target(&cfg, None), "127.0.0.1:48100");
    // A bare host inherits the configured port, exactly as --paste does.
    assert_eq!(target(&cfg, Some("desktop")), "desktop:48100");
    assert_eq!(target(&cfg, Some("desktop:1234")), "desktop:1234");
    assert_eq!(local_addr(&config("::")), "[::1]:48100");
    assert_eq!(local_addr(&config("10.0.0.7")), "10.0.0.7:48100");
}

#[test]
fn age_renders_short_fixed_width_tokens() {
    assert_eq!(age(0), "just now");
    assert_eq!(age(4_999), "just now");
    assert_eq!(age(45_000), "45s");
    assert_eq!(age(3 * 60_000 + 30_000), "3m");
    assert_eq!(age(2 * 3_600_000), "2h");
    assert_eq!(age(4 * 86_400_000), "4d");
}

#[test]
fn the_listing_shows_both_ways_of_naming_a_row() {
    // Both, because they fail differently: the number is what a human
    // retypes, the id is what survives a copy landing in between.
    let listing = render_listing(
        &[entry(0x3f, 12_000, SelectionKind::Clipboard, Some("x"))],
        "h:1",
    );
    assert!(listing.contains("3f3f3f3f"), "got:\n{listing}");
    assert!(
        listing.contains("63"),
        "the row number is missing:\n{listing}"
    );
    assert_eq!(short_id(&[0x3f; 32]).len(), ID_CHARS);
}

#[test]
fn the_listing_names_the_selection_in_wl_pastes_vocabulary() {
    let listing = render_listing(
        &[
            entry(1, 0, SelectionKind::Clipboard, Some("copied")),
            entry(2, 0, SelectionKind::Selection, Some("highlighted")),
        ],
        "h:1",
    );
    assert!(listing.contains("clipboard"), "got:\n{listing}");
    assert!(listing.contains("primary"), "got:\n{listing}");
}

#[test]
fn an_entry_with_no_preview_shows_its_types_instead() {
    let mut e = entry(1, 0, SelectionKind::Clipboard, None);
    e.types = vec![("image/png".into(), 1200), ("image/jpeg".into(), 900)];
    assert_eq!(content_of(&e), "image/png, image/jpeg");
}

#[test]
fn listing_rows_carry_no_trailing_whitespace() {
    // The content column runs to the end of the line, so a wide preview must
    // not push padding into a line someone copies out of the terminal.
    let listing = render_listing(
        &[
            entry(1, 0, SelectionKind::Clipboard, Some("short")),
            entry(
                2,
                4 * 86_400_000,
                SelectionKind::Selection,
                Some("a much longer preview"),
            ),
        ],
        "h:1",
    );
    for line in listing.lines() {
        assert_eq!(line, line.trim_end(), "trailing whitespace in {line:?}");
    }
}

#[test]
fn a_local_only_restore_says_the_mesh_did_not_follow() {
    // A bare "done" would imply every other host had changed too.
    let sent = render_restored("h:1", SelectionKind::Clipboard, true);
    assert!(sent.contains("sent it to the mesh"), "got: {sent}");
    let local = render_restored("h:1", SelectionKind::Clipboard, false);
    assert!(local.contains("Not sent to the mesh"), "got: {local}");
}

/// Every reason a node can have for handing back nothing renders as its own
/// sentence.
#[test]
fn every_reason_explains_itself_distinctly() {
    let reasons = [
        HistoryMiss::Disabled,
        HistoryMiss::Empty,
        HistoryMiss::NoSuchEntry { entries: 4 },
        HistoryMiss::Filtered(Unavailable::Denied),
        HistoryMiss::Filtered(Unavailable::TooLarge),
        HistoryMiss::Ambiguous { matches: 3 },
        HistoryMiss::NotOffered {
            available: vec!["text/plain".into()],
        },
        HistoryMiss::NotSynced,
        HistoryMiss::WriteFailed,
    ];
    let rendered: Vec<String> = reasons.iter().map(|r| explain(r, "h:1")).collect();
    for (i, a) in rendered.iter().enumerate() {
        assert!(!a.is_empty());
        for b in &rendered[i + 1..] {
            assert_ne!(a, b, "two reasons render identically");
        }
    }
    let ambiguous = explain(&HistoryMiss::Ambiguous { matches: 3 }, "h:1");
    assert!(ambiguous.contains('3'), "the match count is worth naming");
}

#[test]
fn a_command_asks_for_what_it_prints() {
    assert_eq!(request(&parse(&["list"]).unwrap()), HistoryRequest::List);
    assert_eq!(
        request(&parse(&["get", "3f", "-t", "a/b"]).unwrap()),
        HistoryRequest::Get {
            entry: "3f".to_string(),
            type_: Some("a/b".to_string()),
        }
    );
    assert_eq!(
        request(&parse(&["restore", "3f"]).unwrap()),
        HistoryRequest::Restore {
            entry: "3f".to_string(),
        }
    );
    let said = [
        awaited(&Command::List),
        awaited(&Command::Get { entry: String::new() }),
        awaited(&Command::Restore { entry: String::new() }),
    ];
    assert!(said.iter().all(|s| !s.is_empty()));
    assert_ne!(where_of(SelectionKind::Clipboard), where_of(SelectionKind::Selection));
}

#[test]
fn an_answer_is_printed_explained_or_refused() {
    let list = parse(&["list"]).unwrap();
    let get = parse(&["get", "3f"]).unwrap();
    let restore = parse(&["restore", "3f"]).unwrap();
    let rows = vec![entry(1, 0, SelectionKind::Clipboard, Some("x"))];
    match answer(&list, HistoryResult::List(rows.clone()), "h:1") {
        Outcome::Print(bytes) => {
            assert_eq!(bytes, render_listing(&rows, "h:1").into_bytes())
        }
        _ => panic!("a listing is printed"),
    }
    let offer: Offer = [("text/plain".to_string(), b"hi".to_vec())]
        .into_iter()
        .collect();
    match answer(&get, HistoryResult::Offer(offer), "h:1") {
        Outcome::Print(bytes) => assert_eq!(bytes, b"hi\n"),
        _ => panic!("content is printed"),
    }
    let restored = HistoryResult::Restored {
        kind: SelectionKind::Selection,
        broadcast: true,
    };
    match answer(&restore, restored, "h:1") {
        Outcome::Print(bytes) => {
            let said = render_restored("h:1", SelectionKind::Selection, true);
            assert_eq!(bytes, format!("{said}\n").into_bytes())
        }
        _ => panic!("a restore is confirmed"),
    }
    match answer(&get, HistoryResult::Failed(HistoryMiss::Empty), "h:1") {
        Outcome::Fail(why) => assert_eq!(why, explain(&HistoryMiss::Empty, "h:1")),
        _ => panic!("a miss is explained"),
    }
    assert!(matches!(
        answer(&get, HistoryResult::List(Vec::new()), "h:1"),
        Outcome::Mismatch(HistoryResult::List(_))
    ));
}

#[test]
fn an_empty_history_says_so() {
    let said = render_listing(&[], "h:1");
    assert!(said.contains("h:1"), "{said}");
}
