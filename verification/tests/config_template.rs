use clipmesh::config::{Config, Direction, LinkSelections, MimePolicy, RawConfig, RAW_CONFIG_KEYS};
use clipmesh::config_template::{
    extract_values, key_defaults, render, render_example, sync_config, template, template_keys,
    template_value, Block, Shown, SyncError, SyncOutcome, Values,
};

fn vals(pairs: &[(&str, &str)]) -> Values {
    Values {
        scalars: pairs
            .iter()
            .map(|(k, v)| (k.to_string(), v.to_string()))
            .collect(),
        link: None,
    }
}

fn text_in(table: &toml::Table, key: &str) -> Option<String> {
    table.get(key).map(|v| v.as_str().expect(key).to_string())
}

fn flag_in(table: &toml::Table, key: &str) -> Option<bool> {
    table.get(key).map(|v| v.as_bool().expect(key))
}

/// The configuration that the text of a file means, where it sets its secret inline.
fn config_of(text: &str) -> Config {
    let table: toml::Table = text.parse().unwrap_or_else(|e| panic!("{e}\n{text}"));
    for key in table.keys() {
        assert!(RAW_CONFIG_KEYS.contains(&key.as_str()), "unknown key {key}");
    }
    let mut raw = RawConfig::new(text_in(&table, "listen").expect("listen"));
    raw.port = table
        .get("port")
        .map(|v| v.as_integer().unwrap().try_into().unwrap());
    raw.peers = table.get("peers").map(|v| {
        let list = v.as_array().unwrap();
        list.iter().map(|p| p.as_str().unwrap().to_string()).collect()
    });
    raw.psk = text_in(&table, "psk");
    raw.psk_file = text_in(&table, "psk_file");
    raw.psk_env = text_in(&table, "psk_env");
    raw.max_payload_size = text_in(&table, "max_payload_size");
    raw.debounce_ms = table
        .get("debounce_ms")
        .map(|v| v.as_integer().unwrap().try_into().unwrap());
    raw.sync_selection = flag_in(&table, "sync_selection");
    raw.link_selections = table.get("link_selections").map(|v| {
        let link = v.as_table().unwrap();
        LinkSelections {
            clipboard_to_selection: flag_in(link, "clipboard_to_selection").unwrap_or(false),
            selection_to_clipboard: flag_in(link, "selection_to_clipboard").unwrap_or(false),
        }
    });
    raw.direction = table.get("direction").map(|v| match v.as_str().unwrap() {
        "both" => Direction::Both,
        "send_only" => Direction::SendOnly,
        "receive_only" => Direction::ReceiveOnly,
        other => panic!("{other}"),
    });
    raw.exclude_sensitive = flag_in(&table, "exclude_sensitive");
    raw.resync_on_connect = flag_in(&table, "resync_on_connect");
    raw.share_mime_rules = flag_in(&table, "share_mime_rules");
    raw.verbose = flag_in(&table, "verbose");
    raw.log_level = text_in(&table, "log_level");
    raw.unknown_mime = table.get("unknown_mime").map(|v| match v.as_str().unwrap() {
        "allow" => MimePolicy::Allow,
        "deny" => MimePolicy::Deny,
        other => panic!("{other}"),
    });
    raw.synthesize_text_plain = flag_in(&table, "synthesize_text_plain");
    raw.take_ownership = flag_in(&table, "take_ownership");
    raw.mime_rules_file = text_in(&table, "mime_rules_file");
    Config::from_toml(raw, String::new(), None)
        .unwrap_or_else(|e| panic!("{}\n{text}", e.message()))
}

#[test]
fn renders_prose_required_and_optional() {
    let template = &[
        Block::Prose("header line"),
        Block::Required {
            key: "listen",
            comment: "bind addr",
            sample: "\"0.0.0.0\"",
        },
        Block::Optional {
            key: "debounce_ms",
            comment: "quiet period",
            shown: Shown::Default("100"),
        },
    ];
    // `listen` set by the user, `debounce_ms` not.
    let out = render(template, &vals(&[("listen", "\"192.168.1.5\"")]));
    assert_eq!(
        out,
        "# header line\n\
         \n\
         # bind addr\n\
         listen = \"192.168.1.5\"\n\
         \n\
         # quiet period\n\
         # debounce_ms = 100\n"
    );
}

#[test]
fn psk_group_actives_the_users_source_only() {
    let template = &[Block::PskGroup { comment: "one of:" }];
    // user uses psk_file
    let out = render(template, &vals(&[("psk_file", "\"/k\"")]));
    assert_eq!(
        out,
        "# one of:\n\
         psk_file = \"/k\"\n\
         # psk = \"supersecret\"\n\
         # psk_env = \"CLIPMESH_PSK\"\n"
    );
}

#[test]
fn link_selections_absent_is_fully_commented() {
    let template = &[Block::LinkSelections { comment: "link" }];
    let out = render(template, &Values::new());
    assert_eq!(
        out,
        "# link\n\
         # [link_selections]\n\
         # clipboard_to_selection = false\n\
         # selection_to_clipboard = false\n"
    );
}

#[test]
fn link_selections_present_actives_both_keys() {
    let template = &[Block::LinkSelections { comment: "link" }];
    let v = Values {
        link: Some((true, false)),
        ..Values::new()
    };
    let out = render(template, &v);
    assert_eq!(
        out,
        "# link\n\
         [link_selections]\n\
         clipboard_to_selection = true\n\
         selection_to_clipboard = false\n"
    );
}

#[test]
fn rendered_example_is_a_valid_config() {
    let text = render_example();
    // every option key appears exactly once
    for key in [
        "listen",
        "port",
        "peers",
        "max_payload_size",
        "debounce_ms",
        "sync_selection",
        "direction",
        "exclude_sensitive",
        "resync_on_connect",
        "share_mime_rules",
        "verbose",
        "log_level",
        "unknown_mime",
        "synthesize_text_plain",
        "take_ownership",
        "mime_rules_file",
    ] {
        assert!(text.contains(&format!("{key} ")), "missing {key}");
    }
    // the [link_selections] table is present (commented) and last
    assert!(text.contains("# [link_selections]"));
    assert!(text
        .trim_end()
        .ends_with("# selection_to_clipboard = false"));
    // re-rendering the example through extract+render is a no-op (idempotent)
    let again = render(&template(), &extract_values(&text).unwrap());
    assert_eq!(again, text, "render is not idempotent on the example");
}

/// Rewrites `current` as `--sync-config` does, and returns the text of the file after it.
fn synced(current: &str) -> (SyncOutcome, String) {
    match sync_config("config.toml", true, current) {
        Ok((outcome, Some(text))) => (outcome, text),
        Ok((outcome, None)) => (outcome, current.to_string()),
        Err(_) => panic!("refused:\n{current}"),
    }
}

#[test]
fn sync_config_adds_missing_keeps_set_and_is_idempotent() {
    let (outcome, text) = synced("listen = \"x\"\npsk = \"s\"\ndebounce_ms = 250\n");
    assert!(matches!(outcome, SyncOutcome::Rewrote { .. }));
    // the user's set value is preserved, active
    assert!(text.contains("debounce_ms = 250"));
    // psk is the active source; psk_file/psk_env are commented
    assert!(text.contains("psk = \"s\""));
    assert!(text.contains("# psk_file ="));
    // a previously-absent option was added as a commented default
    assert!(text.contains("# exclude_sensitive = true"));
    // it still loads
    assert_eq!(config_of(&text).debounce_ms, 250);

    // running again is a no-op
    let (outcome2, again) = synced(&text);
    assert!(matches!(outcome2, SyncOutcome::Unchanged));
    assert_eq!(again, text);
}

#[test]
fn a_canonical_value_reads_as_itself() {
    let values = [
        "1_000 # c",
        "0xFF",
        "+1e3",
        "-inf",
        "1979-05-27 07:32:00.5Z",
        "'a # b'   # c",
        "\"\"\"\n\ta\\\n  b\"\"\"\"",
        "'''\r\nx''y'''",
        "[ ]",
        "[ # none\n]",
        "[1, # one\n [ 'a' , \"b\" ],\n { x = [ 1 , # two\n 2, ] , y.z=1 } , ]",
        "{ }",
        "{a . x=1,b = 2 , a.y = 3, \"a\" .z = { } }",
    ];
    for value in values {
        let read = |text: &str| {
            let values = extract_values(&format!("v = {text}\n")).unwrap();
            assert_eq!(values.scalars.len(), 1, "{text}");
            values.get("v").unwrap().clone()
        };
        let once = read(value);
        assert_eq!(read(&once), once, "{value}");
        let among = format!("# n\u{e9}\t.\n\na = 1\nk-9_Z = {once}\nz = 2\n[t]\nf = true\n");
        let all = extract_values(&among).unwrap();
        assert_eq!(all.get("k-9_Z"), Some(&once), "{value}");
        assert_eq!(all.scalars.len(), 3, "{value}");
    }
}

#[test]
fn a_rewritten_config_reads_as_the_same_values() {
    let current = "listen = '0.0.0.0' # all\npeers = [ # two\n  \"a\", [ 'b' ],\n]\npsk = \"\"\"\n\
                   s\"\"\"\nport = 0x10\nlink_selections = { clipboard_to_selection = true }\n";
    let before = extract_values(current).unwrap();
    let (outcome, text) = synced(current);
    assert!(matches!(outcome, SyncOutcome::Rewrote { .. }));
    let after = extract_values(&text).unwrap();
    for key in ["listen", "peers", "psk", "port", "psk_file", "verbose"] {
        assert_eq!(before.get(key), after.get(key), "{key}");
    }
    assert_eq!(after.get("peers").unwrap(), "[\"a\", ['b']]");
    assert_eq!(after.link, Some((true, false)));
    assert!(matches!(synced(&text).0, SyncOutcome::Unchanged));
}

#[test]
fn sync_config_refuses_an_unloadable_config() {
    let original = "listen = \"x\"\nsync_primary = true\n"; // unknown key
    assert!(matches!(
        sync_config("config.toml", false, original),
        Err(SyncError::Unloadable)
    ));
    match sync_config("config.toml", true, original) {
        Err(SyncError::Unknown(why)) => assert!(why.contains("sync_primary"), "{why}"),
        _ => panic!("a key that the template does not render must be refused"),
    }
    match sync_config("config.toml", true, "= not = toml") {
        Err(SyncError::Malformed(fault)) => {
            assert!(fault.contains("TOML parse error at line 1"), "{fault}");
        }
        _ => panic!("a text that is no TOML must be refused"),
    }
}

/// The template must be able to render every option the parser accepts, or
/// `--sync-config` drops that line from a config file that sets it.
#[test]
fn every_config_option_has_a_template_block() {
    let renderable = template_keys();
    for key in RAW_CONFIG_KEYS {
        // The only table; rendered by its own block, not as a scalar.
        if key == "link_selections" {
            continue;
        }
        assert!(
            renderable.iter().any(|k| k == key),
            "config option `{key}` has no TEMPLATE block: --sync-config would \
             delete it from a config that sets it"
        );
    }
}

#[test]
fn every_template_key_is_an_option_and_none_occurs_twice() {
    let mut keys = template_keys();
    assert_eq!(keys.len(), RAW_CONFIG_KEYS.len() - 1);
    for key in &keys {
        assert!(RAW_CONFIG_KEYS.contains(&key.as_str()), "{key}");
        assert_ne!(key, "link_selections");
    }
    keys.sort();
    keys.dedup();
    assert_eq!(keys.len(), RAW_CONFIG_KEYS.len() - 1);
}

/// The generated file tells the reader that a commented line is the option's
/// default. Prove it: render with nothing set, uncomment every line that
/// isn't declared a `Shown::Sample`, and the result must parse to exactly
/// what the parser produces from a config that sets none of them.
#[test]
fn commented_defaults_are_the_parsers_defaults() {
    let listen = template_value("listen").expect("listen is in the template");
    let rendered = render(&template(), &vals(&[("psk", "\"s\"")]));

    let samples: Vec<&str> = key_defaults()
        .into_iter()
        .filter(|k| matches!(k.shown, Shown::Sample(_)))
        .map(|k| k.key)
        .collect();
    let mut activated = Vec::new();
    let mut toml = String::new();
    for line in rendered.lines() {
        // A commented setting is `# key = value` or the `# [table]` header;
        // prose comments are neither.
        let setting = line.strip_prefix("# ").filter(|bare| {
            bare.starts_with('[')
                || bare
                    .split_once(" = ")
                    .is_some_and(|(key, _)| !key.contains(' ') && !samples.contains(&key))
        });
        match setting {
            Some(bare) => {
                activated.push(bare.to_string());
                toml.push_str(bare);
            }
            None => toml.push_str(line),
        }
        toml.push('\n');
    }
    // Guard against the line-shape sniffing above silently matching nothing.
    assert!(
        activated.len() > 10,
        "expected the template's defaults to be activated, got {activated:?}"
    );

    let from_template = config_of(&toml);
    let from_minimal = config_of(&format!("listen = {listen}\npsk = \"s\"\n"));
    assert_eq!(
        from_template, from_minimal,
        "a value the template shows as a default is not the parser's default"
    );
}

#[test]
fn extract_collects_present_keys_decor_stripped() {
    let text = "\
listen = \"x\"
psk = \"s\"
debounce_ms = 250   # inline comment dropped
max_payload_size=\"8MiB\"
peers = [\n  \"a\",\n  \"b\",\n]

[link_selections]
clipboard_to_selection = true
";
    let v = extract_values(text).unwrap();
    assert_eq!(v.get("listen").unwrap(), "\"x\"");
    assert_eq!(v.get("debounce_ms").unwrap(), "250");
    // value is decor-stripped (no inline comment, canonical spacing)
    assert_eq!(v.get("max_payload_size").unwrap(), "\"8MiB\"");
    // multi-line array normalized to one line
    assert_eq!(v.get("peers").unwrap(), "[\"a\", \"b\"]");
    // the table is captured separately, not as a scalar
    assert!(v.get("link_selections").is_none());
    // absent table key defaults to false
    assert_eq!(v.link, Some((true, false)));
}

/// `link_selections = { ... }` is valid TOML, so it is honoured like the table.
#[test]
fn sync_config_keeps_an_inline_link_selections_table() {
    let (_, text) =
        synced("listen = \"x\"\npsk = \"s\"\nlink_selections = { clipboard_to_selection = true }\n");
    let cfg = config_of(&text);
    assert!(
        cfg.link_selections.clipboard_to_selection,
        "--sync-config dropped an inline [link_selections]:\n{text}"
    );
}

#[test]
fn the_settings_may_come_in_any_order() {
    let forth = vals(&[("psk", "\"s\""), ("listen", "\"x\""), ("verbose", "true")]);
    let back = vals(&[("verbose", "true"), ("listen", "\"x\""), ("psk", "\"s\"")]);
    assert_eq!(render(&template(), &forth), render(&template(), &back));
}

#[test]
fn what_was_added_is_what_was_unset() {
    let (outcome, text) = synced("listen = \"x\"\npsk = \"s\"\nverbose = true\n");
    match outcome {
        SyncOutcome::Rewrote { added } => {
            assert!(added.iter().any(|k| k == "direction"), "{added:?}");
            assert!(!added.iter().any(|k| k == "verbose"), "{added:?}");
        }
        SyncOutcome::Unchanged => panic!("{text}"),
    }
    assert!(text.contains("\nverbose = true\n"));
}
