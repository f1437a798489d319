use clipmesh::cli::{
    apply_rule_edit, check_pattern, colorize_globs, config_change_action, edit_report, no_rules,
    open_rules_file, paste_mode_args, print_rules, sync_config_action, verdict_icon,
    verdict_label, CliAction, CliArgs, ConfigChange, Opened,
};
use clipmesh::config::MimePolicy;
use clipmesh::config_template::SyncOutcome;
use clipmesh::mime::{FileRead, MimeRules, Persist, Verdict};

fn args(v: &[&str]) -> Vec<String> {
    v.iter().map(|s| s.to_string()).collect()
}

#[test]
fn paste_mode_via_flag_strips_the_paste_marker() {
    let got = paste_mode_args("clipmesh", &args(&["--paste", "-t", "text/plain"]));
    assert_eq!(got, Some(args(&["-t", "text/plain"])));
}

#[test]
fn paste_mode_via_wl_paste_symlink() {
    // a symlink named wl-paste anywhere on PATH enters paste mode
    assert_eq!(
        paste_mode_args("/usr/local/bin/wl-paste", &args(&["-l"])),
        Some(args(&["-l"]))
    );
}

#[test]
fn normal_invocations_are_not_paste_mode() {
    assert_eq!(paste_mode_args("clipmesh", &args(&["--rules"])), None);
    assert_eq!(paste_mode_args("clipmesh", &[]), None);
    assert_eq!(
        paste_mode_args("/usr/bin/clipmesh", &args(&["--config", "/c"])),
        None
    );
}

/// The listing's key column is aligned by these labels alone.
#[test]
fn verdict_labels_render_to_one_aligned_column() {
    assert_eq!(verdict_label(Verdict::Allow), "✅ allow  ");
    assert_eq!(verdict_label(Verdict::Deny), "⛔ deny   ");
    assert_eq!(verdict_label(Verdict::Invalid), "⚠️  invalid");
    for v in [Verdict::Allow, Verdict::Deny, Verdict::Invalid] {
        assert!(verdict_label(v).starts_with(verdict_icon(v)));
    }
}

#[test]
fn config_change_action_restarts_only_for_a_changed_usable_config() {
    let original = "listen = \"x\"\npsk = \"s\"\n";

    // Same content (e.g. a bare `touch`): no restart, even though it parses.
    assert_eq!(
        config_change_action(Some(original), original, true),
        ConfigChange::KeepRunning
    );

    // Changed and still parses: restart to apply it.
    assert_eq!(
        config_change_action(Some("listen = \"y\"\npsk = \"s\"\n"), original, true),
        ConfigChange::Restart
    );

    // Changed but doesn't parse: keep running, so a typo can't put us into a
    // restart loop under systemd's Restart=always.
    assert_eq!(
        config_change_action(Some("this = is = not = toml"), original, false),
        ConfigChange::KeepRunning
    );

    // An unreadable/missing file: keep running rather than crash.
    assert_eq!(
        config_change_action(None, original, false),
        ConfigChange::KeepRunning
    );
}

#[test]
fn arguments_name_a_config_and_one_action() {
    let none = CliArgs::parse(&[]).unwrap();
    assert_eq!(none.config, None);
    assert_eq!(none.action, None);
    let a = CliArgs::parse(&args(&["--config", "/c", "--rules"])).unwrap();
    assert_eq!(a.config.as_deref(), Some("/c"));
    assert_eq!(a.action, Some(CliAction::PrintRules));
    let a = CliArgs::parse(&args(&["--deny", "image/*"])).unwrap();
    assert_eq!(
        a.action,
        Some(CliAction::Edit {
            allow: false,
            pattern: "image/*".to_string(),
        })
    );
    assert!(CliArgs::parse(&args(&["--deny"])).is_none());
    assert!(CliArgs::parse(&args(&["--bogus"])).is_none());
}

#[test]
fn a_normalized_config_is_reported() {
    assert_eq!(
        sync_config_action("c.toml", &SyncOutcome::Unchanged),
        "config c.toml is already up to date"
    );
    assert_eq!(
        sync_config_action("c.toml", &SyncOutcome::Rewrote { added: Vec::new() }),
        "refreshed comments in c.toml"
    );
    assert_eq!(
        sync_config_action(
            "c.toml",
            &SyncOutcome::Rewrote {
                added: args(&["port", "peers"]),
            }
        ),
        "wrote c.toml (2 option(s) added as commented defaults: port, peers)"
    );
}

fn text(body: &str) -> FileRead {
    FileRead::Text(body.to_string())
}

#[test]
fn a_rules_file_that_cannot_be_used_is_left_alone() {
    let open = |read| open_rules_file(Some("m"), MimePolicy::Deny, read);
    assert!(matches!(open(FileRead::NotFound), Ok(Opened::Absent)));
    assert!(matches!(open(text(" \n")), Ok(Opened::Blank)));
    assert!(matches!(open(text("[rules]\n")), Ok(Opened::Rules(_))));
    let Err(why) = open(text("= = not toml")) else {
        panic!("it isn't TOML")
    };
    assert!(why.starts_with("m isn't valid TOML — fix or delete it: "), "got: {why}");
    assert!(why.contains("line 1"), "got: {why}");
    assert!(open(FileRead::Failed("denied".to_string())).is_err());
    assert!(open_rules_file(None, MimePolicy::Deny, FileRead::NotFound).is_err());
}

#[test]
fn a_rule_edit_drops_what_the_glob_covers() {
    assert!(check_pattern(" ").is_err());
    assert!(check_pattern("image/*").is_ok());
    let body = "[rules]\n\"image/png\" = \"allow\"\n\"text/plain\" = \"allow\"\n";
    let edit =
        apply_rule_edit(Some("m"), MimePolicy::Deny, text(body), false, "image/*").unwrap();
    assert_eq!(edit.removed, ["\"image/png\" = \"allow\""]);
    match edit.rules.persist() {
        Persist::Write { path, text } => {
            assert_eq!(path, "m");
            assert_eq!(
                text,
                "[rules]\n\"image/*\" = \"deny\"\n\"text/plain\" = \"allow\"\n"
            );
        }
        _ => panic!("the edit is written"),
    }
    let fresh = apply_rule_edit(Some("m"), MimePolicy::Deny, FileRead::NotFound, true, "a/*");
    assert!(fresh.unwrap().rules.allows("a/b", 1), "starts from the skeleton");
    let bad = apply_rule_edit(Some("m"), MimePolicy::Deny, text("= ="), true, "a/*");
    assert!(bad.is_err());
    let report = edit_report("image/*", false, "m", &edit.removed);
    assert!(report.contains("\"image/png\" = \"allow\""), "{report}");
}

#[test]
fn the_listing_shows_each_rule_and_what_overlaps_it() {
    let rules = MimeRules::load(
        Some("m".to_string()),
        MimePolicy::Deny,
        text("[rules]\n\"image/*\" = \"deny\"\n\"image/png\" = { rule = \"allow\", max = \"1KiB\" }\n"),
    );
    let shown = print_rules(&rules.rules_report(), MimePolicy::Deny, "m", false);
    for part in ["image/*", "image/png", "✅ allow", "⛔ deny", "1KiB"] {
        assert!(shown.contains(part), "{part} missing:\n{shown}");
    }
    assert!(!shown.contains('\x1b'), "no colour was asked for");
    let coloured = print_rules(&rules.rules_report(), MimePolicy::Deny, "m", true);
    assert!(coloured.contains('\x1b'));
    assert_eq!(colorize_globs("a/b", true), "a/b");
    assert_eq!(colorize_globs("a/*", false), "a/*");
    assert_ne!(colorize_globs("a/*", true), "a/*");
    assert_ne!(no_rules("m", true), no_rules("m", false));
}
