use clipmesh::config::{
    config_root, default_config_path, parse_size, port_of, with_default_port, Config,
    ConfigError, Direction, LinkSelections, MimePolicy, PskSource, RawConfig, SizeError,
    RAW_CONFIG_KEYS,
};

fn s(x: &str) -> String {
    x.to_string()
}

fn link(clipboard_to_selection: bool, selection_to_clipboard: bool) -> LinkSelections {
    LinkSelections {
        clipboard_to_selection,
        selection_to_clipboard,
    }
}

fn from_raw(raw: RawConfig) -> Result<Config, ConfigError> {
    Config::from_toml(raw, String::new(), None)
}

/// A config that listens on `listen` with an inline secret.
fn listening(listen: &str) -> RawConfig {
    let mut raw = RawConfig::new(s(listen));
    raw.psk = Some(s("s"));
    raw
}

/// `set` on top of the two keys every config must have.
fn cfg_with(set: impl FnOnce(&mut RawConfig)) -> Result<Config, ConfigError> {
    let mut raw = listening("x");
    set(&mut raw);
    from_raw(raw)
}

#[test]
fn verbose_defaults_off_and_parses_when_set() {
    assert!(!cfg_with(|_| {}).unwrap().verbose);
    assert!(cfg_with(|raw| raw.verbose = Some(true)).unwrap().verbose);
}

#[test]
fn zero_max_payload_size_is_rejected() {
    // A 0 cap would silently drop every representation; reject it loudly.
    let err = cfg_with(|raw| raw.max_payload_size = Some(s("0B"))).unwrap_err();
    assert_eq!(err, ConfigError::ZeroPayloadSize);
}

#[test]
fn parses_full_config() {
    let mut raw = RawConfig::new(s("0.0.0.0"));
    raw.port = Some(48100);
    raw.peers = Some(vec![s("host-b:48100"), s("host-c:48100")]);
    raw.psk = Some(s("supersecret"));
    raw.max_payload_size = Some(s("2MiB"));
    raw.debounce_ms = Some(250);
    raw.sync_selection = Some(true);
    raw.direction = Some(Direction::SendOnly);
    raw.exclude_sensitive = Some(false);
    raw.resync_on_connect = Some(false);
    raw.log_level = Some(s("debug"));
    raw.unknown_mime = Some(MimePolicy::Allow);
    raw.mime_rules_file = Some(s("/tmp/clipmesh-test/mimetypes"));
    raw.link_selections = Some(link(true, true));
    let cfg = from_raw(raw).unwrap();
    assert_eq!(cfg.listen, "0.0.0.0:48100"); // listen + port combined
    assert_eq!(cfg.port, 48100);
    assert_eq!(cfg.peers, vec!["host-b:48100", "host-c:48100"]);
    assert_eq!(cfg.psk, *blake3::hash(b"supersecret").as_bytes());
    assert_eq!(cfg.max_payload_size, 2 * 1024 * 1024);
    assert_eq!(cfg.debounce_ms, 250);
    assert!(cfg.sync_selection);
    assert_eq!(cfg.direction, Direction::SendOnly);
    assert!(!cfg.exclude_sensitive);
    assert!(!cfg.resync_on_connect);
    assert_eq!(cfg.log_level, "debug");
    assert_eq!(cfg.unknown_mime, MimePolicy::Allow);
    assert_eq!(
        cfg.mime_rules_path,
        Some(s("/tmp/clipmesh-test/mimetypes"))
    );
    assert_eq!(cfg.link_selections, link(true, true));
}

#[test]
fn applies_defaults() {
    let cfg = from_raw(listening("0.0.0.0")).unwrap();
    assert!(cfg.peers.is_empty());
    assert_eq!(cfg.listen, "0.0.0.0:48100"); // port defaults to 48100
    assert_eq!(cfg.port, 48100);
    assert_eq!(cfg.max_payload_size, 32 * 1024 * 1024);
    assert_eq!(cfg.debounce_ms, 100);
    assert!(!cfg.sync_selection);
    assert_eq!(cfg.direction, Direction::Both);
    assert!(cfg.exclude_sensitive);
    assert!(cfg.resync_on_connect);
    assert_eq!(cfg.log_level, "info");
    assert_eq!(cfg.unknown_mime, MimePolicy::Deny);
    // from_toml has no config dir to resolve against; load() fills this in
    assert_eq!(cfg.mime_rules_path, None);
    let cfg = Config::load("/etc/c/config.toml", listening("0.0.0.0"), String::new(), None);
    assert_eq!(cfg.unwrap().mime_rules_path, Some(s("/etc/c/mimetypes")));
    let cfg = Config::load("config.toml", listening("0.0.0.0"), String::new(), None);
    assert_eq!(cfg.unwrap().mime_rules_path, Some(s("./mimetypes")));
}

#[test]
fn loading_agrees_with_parsing() {
    let mut raw = listening("0.0.0.0");
    raw.peers = Some(vec![s("a"), s("b:1")]);
    let parsed = Config::from_toml(raw.clone(), String::new(), None).unwrap();
    let mut found = Config::load("/c/config.toml", raw.clone(), String::new(), None).unwrap();
    assert_eq!(found, parsed.clone().placed("/c/config.toml"));
    assert_eq!(found.mime_rules_path.take(), Some(s("/c/mimetypes")));
    assert_eq!(found, parsed);
    raw.mime_rules_file = Some(s("/r/rules"));
    let parsed = Config::from_toml(raw.clone(), String::new(), None).unwrap();
    let found = Config::load("/c/config.toml", raw.clone(), String::new(), None).unwrap();
    assert_eq!(found, parsed);
    assert_eq!(found.mime_rules_path, Some(s("/r/rules")));
    raw.psk = None;
    assert_eq!(
        Config::load("/c/config.toml", raw.clone(), String::new(), None),
        Config::from_toml(raw, String::new(), None)
    );
}

#[test]
fn requires_exactly_one_psk_source() {
    assert_eq!(
        from_raw(RawConfig::new(s("x"))).unwrap_err(),
        ConfigError::NotOnePskSource
    );
    let mut raw = RawConfig::new(s("x"));
    raw.psk = Some(s("a"));
    raw.psk_env = Some(s("B"));
    assert_eq!(
        Config::psk_source(&raw).unwrap_err(),
        ConfigError::NotOnePskSource
    );
    assert!(from_raw(raw).is_err());
}

#[test]
fn rejects_empty_secret() {
    assert_eq!(
        cfg_with(|raw| raw.psk = Some(String::new())).unwrap_err(),
        ConfigError::EmptySecret
    );
}

#[test]
fn reads_psk_from_file_trimmed() {
    let mut raw = RawConfig::new(s("x"));
    raw.psk_file = Some(s("/k/psk"));
    assert_eq!(
        Config::psk_source(&raw).unwrap(),
        PskSource::File(s("/k/psk"))
    );
    // trailing newline must be trimmed
    let cfg = Config::from_toml(raw.clone(), s("/k/psk"), Some(s("filesecret\n"))).unwrap();
    assert_eq!(cfg.psk, *blake3::hash(b"filesecret").as_bytes());
    let err = Config::from_toml(raw.clone(), s("/k/psk"), None).unwrap_err();
    assert_eq!(err.message(), "reading psk_file /k/psk");
    let err = Config::from_toml(raw, s("/k/psk"), Some(s(" \n"))).unwrap_err();
    assert_eq!(err, ConfigError::EmptySecret);
}

#[test]
fn a_leading_tilde_is_expanded() {
    let home = shellexpand::tilde("~").into_owned();
    let mut raw = RawConfig::new(s("x"));
    raw.psk_file = Some(s("~/psk"));
    assert_eq!(
        Config::psk_source(&raw).unwrap(),
        PskSource::File(format!("{home}/psk"))
    );
    let cfg = cfg_with(|raw| raw.mime_rules_file = Some(s("~/rules"))).unwrap();
    assert_eq!(cfg.mime_rules_path, Some(format!("{home}/rules")));
}

#[test]
fn the_default_config_root_follows_xdg_config_home() {
    assert_eq!(
        config_root(Some("/home/u/.dotconfig".to_string())),
        "/home/u/.dotconfig"
    );

    // Per the XDG basedir spec an unset or empty value means the default,
    // and a relative path is invalid and must be ignored.
    let fallback = shellexpand::tilde("~/.config").into_owned();
    assert_eq!(config_root(None), fallback);
    assert_eq!(config_root(Some(String::new())), fallback);
    assert_eq!(config_root(Some("relative/dir".to_string())), fallback);
    assert_eq!(
        default_config_path(Some(s("/c"))),
        "/c/clipmesh/config.toml"
    );
}

#[test]
fn reads_psk_from_env() {
    let mut raw = RawConfig::new(s("x"));
    raw.psk_env = Some(s("CLIPMESH_TEST_PSK"));
    assert_eq!(
        Config::psk_source(&raw).unwrap(),
        PskSource::Env(s("CLIPMESH_TEST_PSK"))
    );
    let cfg = Config::from_toml(raw.clone(), String::new(), Some(s("envsecret"))).unwrap();
    assert_eq!(cfg.psk, *blake3::hash(b"envsecret").as_bytes());
    let err = from_raw(raw).unwrap_err();
    assert_eq!(err.message(), "reading psk_env CLIPMESH_TEST_PSK");
}

#[test]
fn share_mime_rules_defaults_on_and_parses() {
    assert!(cfg_with(|_| {}).unwrap().share_mime_rules);
    assert!(
        !cfg_with(|raw| raw.share_mime_rules = Some(false))
            .unwrap()
            .share_mime_rules
    );
    // tests opt out by default so existing verbatim-file tests are unaffected
    assert!(!Config::for_test("s").share_mime_rules);
}

#[test]
fn listen_and_port_combine_into_a_bind_address() {
    let mut raw = listening("0.0.0.0");
    raw.port = Some(51000);
    assert_eq!(from_raw(raw).unwrap().listen, "0.0.0.0:51000");
}

#[test]
fn ipv6_listen_address_is_bracketed_with_the_port() {
    let mut raw = listening("::");
    raw.port = Some(48100);
    assert_eq!(from_raw(raw).unwrap().listen, "[::]:48100");
}

#[test]
fn listen_with_a_port_is_rejected() {
    // The port lives in its own field now; a port inside `listen` would
    // silently shadow it, so it must be rejected loudly.
    let mut raw = listening("0.0.0.0:9000");
    raw.port = Some(48100);
    let msg = from_raw(raw).unwrap_err().message();
    assert!(msg.contains("listen must not include a port"), "got: {msg}");
    assert!(msg.contains("\"9000\" in \"0.0.0.0:9000\""), "got: {msg}");
}

#[test]
fn peer_without_port_inherits_listen_port() {
    // A node listed without a port reuses the port we listen on; an
    // explicit port is left untouched.
    let mut raw = listening("0.0.0.0");
    raw.port = Some(48100);
    raw.peers = Some(vec![s("host-b"), s("host-c:51000")]);
    assert_eq!(
        from_raw(raw).unwrap().peers,
        vec!["host-b:48100", "host-c:51000"]
    );
}

#[test]
fn bracketed_ipv6_peer_without_port_inherits_listen_port() {
    // `[::1]` is the realistic way to write a portless bracketed IPv6 peer.
    let mut raw = listening("::");
    raw.port = Some(48100);
    raw.peers = Some(vec![s("[::1]")]);
    assert_eq!(from_raw(raw).unwrap().peers, vec!["[::1]:48100"]);
}

#[test]
fn bare_ipv6_peer_is_bracketed_with_listen_port() {
    // A bare IPv6 literal must be bracketed before a port can be appended;
    // an already-bracketed peer with a port is kept verbatim.
    let mut raw = listening("::");
    raw.port = Some(48100);
    raw.peers = Some(vec![s("::1"), s("[fe80::2]:5000")]);
    assert_eq!(
        from_raw(raw).unwrap().peers,
        vec!["[::1]:48100", "[fe80::2]:5000"]
    );
}

#[test]
fn a_port_is_added_only_where_there_is_none() {
    for addr in ["host", "host:9", "::1", "[::1]", "[::1]:9"] {
        let once = with_default_port(addr, "48100");
        assert_eq!(with_default_port(&once, "1"), once, "{addr}");
        let port = port_of(addr).unwrap_or_else(|| s("48100"));
        assert_eq!(port_of(&once), Some(port), "{addr}");
    }
    assert_eq!(port_of("host:9"), Some(s("9")));
    assert_eq!(port_of("host"), None);
}

#[test]
fn sync_selection_parses_and_defaults_off() {
    assert!(!cfg_with(|_| {}).unwrap().sync_selection);
    assert!(
        cfg_with(|raw| raw.sync_selection = Some(true))
            .unwrap()
            .sync_selection
    );
}

#[test]
fn link_selections_table_parses_into_directions() {
    // Omitted table -> Off.
    assert_eq!(cfg_with(|_| {}).unwrap().link_selections, link(false, false));
    // Each boolean combination maps to the matching direction.
    for (c2s, s2c) in [(true, false), (false, true), (true, true), (false, false)] {
        let parsed = cfg_with(|raw| raw.link_selections = Some(link(c2s, s2c))).unwrap();
        assert_eq!(parsed.link_selections.clipboard_to_selection, c2s);
        assert_eq!(parsed.link_selections.selection_to_clipboard, s2c);
    }
}

/// `RAW_CONFIG_KEYS` must name exactly the keys `RawConfig` accepts.
#[test]
fn raw_config_keys_matches_the_struct() {
    let shown = format!("{:#?}", RawConfig::new(s("x")));
    let mut fields: Vec<&str> = shown
        .lines()
        .filter_map(|line| line.strip_prefix("    ")?.split_once(':'))
        .map(|(key, _)| key)
        .collect();
    fields.sort_unstable();
    let mut declared = RAW_CONFIG_KEYS;
    declared.sort_unstable();
    assert_eq!(
        fields, declared,
        "RAW_CONFIG_KEYS has drifted from RawConfig's fields"
    );
}

#[test]
fn parse_size_variants() {
    assert_eq!(parse_size("8MiB").unwrap(), 8 * 1024 * 1024);
    assert_eq!(parse_size("512KiB").unwrap(), 512 * 1024);
    assert_eq!(parse_size("64B").unwrap(), 64);
    assert_eq!(parse_size("1048576").unwrap(), 1048576);
    assert!(parse_size("eight").is_err());
    assert!(parse_size("9999999999999999999MiB").is_err()); // overflow
}

#[test]
fn a_size_that_is_no_size_says_what_is_wrong() {
    assert!(matches!(parse_size("eight"), Err(SizeError::Invalid(_))));
    assert!(matches!(
        parse_size("9999999999999999999MiB"),
        Err(SizeError::Overflows(_))
    ));
    assert_eq!(parse_size("  3 KiB ").unwrap(), 3072);
    assert_eq!(parse_size("+7").unwrap(), 7);
    let err = cfg_with(|raw| raw.max_payload_size = Some(s("eight"))).unwrap_err();
    assert_eq!(err.message(), "invalid size: \"eight\"");
    let err = cfg_with(|raw| raw.max_payload_size = Some(s("9999999999999999999MiB")));
    assert!(err.unwrap_err().message().starts_with("size overflows: "));
}
