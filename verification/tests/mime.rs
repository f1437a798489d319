use clipmesh::config::MimePolicy;
use clipmesh::mime::{
    parse_rule, rule_word, usable_cap, FileRead, MimeRules, Persist, Relation, RulesFileState,
    SnapshotError, SnapshotStep, Verdict, TEMPLATE,
};
use clipmesh::protocol::Version;
use uuid::Uuid;

fn s(x: &str) -> String {
    x.to_string()
}

fn list(types: &[&str]) -> Vec<String> {
    types.iter().map(|t| t.to_string()).collect()
}

fn loaded(body: &str, unknown: MimePolicy) -> MimeRules {
    MimeRules::load(Some(s("mimetypes")), unknown, FileRead::Text(s(body)))
}

fn text(body: &str) -> FileRead {
    FileRead::Text(s(body))
}

/// Writes the pending changes, and returns what was written.
fn persist(rules: &mut MimeRules) -> Option<String> {
    match rules.persist() {
        Persist::Write { text, .. } => {
            assert!(rules.persisted(text.clone(), true));
            Some(text)
        }
        Persist::InSync => None,
        Persist::NoFile => panic!("no file to write to"),
    }
}

fn fresh() -> String {
    let mut rules = MimeRules::load(Some(s("mimetypes")), MimePolicy::Deny, FileRead::NotFound);
    persist(&mut rules).expect("a fresh skeleton is pending")
}

type Decision<'a> = (&'a str, usize, bool, &'a str);

type AllowCase<'a> = (&'a str, MimePolicy, &'a [Decision<'a>]);

#[test]
fn allows_decides_by_rule_size_cap_and_specificity() {
    let cases: &[AllowCase<'_>] = &[
        (
            "[rules]\n\"image/png\" = { rule = \"allow\", max = \"100B\" }\n\"image/bmp\" = \"deny\"\n",
            MimePolicy::Deny,
            &[
                ("image/png", 100, true, "exactly at the cap"),
                ("image/png", 101, false, "over the cap"),
                ("image/bmp", 1, false, "denied outright"),
                ("text/plain", 1, false, "no rule -> the deny policy"),
            ],
        ),
        (
            "[rules]\n\"image/png\" = { rule = \"allow\", max = \"0B\" }\n",
            MimePolicy::Deny,
            &[
                ("image/png", 1, true, "a zero cap is ignored, not enforced"),
                ("image/png", 10_000, true, "at any size"),
            ],
        ),
        (
            "[rules]\n\"image/png\" = { rule = \"deny\", max = \"100B\" }\n",
            MimePolicy::Deny,
            &[
                ("image/png", 1, false, "under the cap, still denied"),
                ("image/png", 50, false, "size is irrelevant to a deny"),
            ],
        ),
        (
            "[rules]\n\"image/png\" = { rule = \"allow\", max = \"notasize\" }\n",
            MimePolicy::Deny,
            &[("image/png", 999_999, true, "the allow survives a bad cap")],
        ),
        (
            "[rules]\n\"JAVA_DATATRANSFER*\" = \"deny\"\n\"*;charset=utf-16BE\" = \"deny\"\n",
            MimePolicy::Allow,
            &[
                (
                    "JAVA_DATATRANSFER_COOKIE_9147594d",
                    1,
                    false,
                    "a trailing * covers the whole family",
                ),
                (
                    "text/plain;charset=utf-16be",
                    1,
                    false,
                    "the pattern's case differs from the type's",
                ),
                ("text/plain", 1, true, "no glob matches -> the allow policy"),
            ],
        ),
        (
            "[rules]\n\"*;charset=utf-16*\" = \"deny\"\n\"text/uri-list;charset=utf-16\" = \"allow\"\n",
            MimePolicy::Deny,
            &[
                (
                    "text/uri-list;charset=utf-16",
                    1,
                    true,
                    "the exact key beats the glob",
                ),
                ("text/plain;charset=utf-16le", 1, false, "only the glob matches"),
            ],
        ),
        (
            "[rules]\n\"text/plain*\" = \"deny\"\n\"*plain*\" = \"allow\"\n",
            MimePolicy::Deny,
            &[
                (
                    "text/plain;charset=utf-8",
                    1,
                    false,
                    "text/plain* (10 literals) beats *plain* (5)",
                ),
                ("application/plain-text", 1, true, "only *plain* matches"),
            ],
        ),
        (
            "[rules]\n\"a/x*\" = \"allow\"\n\"a/*y\" = \"deny\"\n",
            MimePolicy::Allow,
            &[("a/xy", 1, false, "3 literals and 1 wildcard each -> deny wins")],
        ),
        (
            "[rules]\n\"TEXT/PLAIN\" = \"allow\"\n\"text/plain\" = \"deny\"\n",
            MimePolicy::Allow,
            &[(
                "text/plain",
                1,
                false,
                "neither case-variant is more specific -> deny wins",
            )],
        ),
    ];
    for &(body, unknown, expected) in cases {
        let rules = loaded(body, unknown);
        for &(mime, size, may_sync, why) in expected {
            assert_eq!(
                rules.allows(mime, size),
                may_sync,
                "{why}: {mime} ({size} bytes) under\n{body}"
            );
        }
    }
}

#[test]
fn mime_keys_with_spaces_and_punctuation_parse() {
    let java = "JAVA_DATAFLAVOR:application/x-java-serialized-object; \
                class=com.intellij.openapi.editor.impl.EditorCopyPasteHelperImpl$CopyPasteOptionsTransferableData";
    let rules = loaded(
        &format!("[rules]\n\"{java}\" = \"deny\"\n\"text/plain;charset=utf-8\" = \"allow\"\n"),
        MimePolicy::Allow,
    );
    assert!(!rules.allows(java, 1), "spaced/punctuated MIME key must parse");
    assert!(rules.allows("text/plain;charset=utf-8", 1));
    assert!(!rules.has_unseen(&[s(java)]), "the key is recognised");
}

#[test]
fn unknown_allow_policy_permits_unseen_types() {
    let rules = MimeRules::load(None, MimePolicy::Allow, FileRead::NotFound);
    assert!(rules.allows("anything/new", 999));
}

#[test]
fn an_invalid_rule_value_is_ignored_and_kept() {
    let rules = loaded(
        "[rules]\n\"image/png\" = \"allwo\"\n\"text/plain\" = \"deny\"\n",
        MimePolicy::Allow,
    );
    assert!(rules.allows("image/png", 1));
    assert!(!rules.allows("text/plain", 1));
    assert!(!rules.is_dirty(), "nothing is written back");
    assert!(rules.body().contains("allwo"));
}

#[test]
fn save_sorts_rules_strips_inner_comments_and_keeps_the_header() {
    let mut rules = loaded(
        "# my notes\n[rules]\n# inner note\n\"text/plain\" = \"deny\"\n\"image/png\" = \"allow\"  # keep this\n",
        MimePolicy::Deny,
    );
    assert!(rules.allows("image/png", 1));
    assert!(!rules.allows("text/plain", 1));
    assert!(rules.ensure(&list(&["image/gif"])));
    let body = persist(&mut rules).unwrap();
    assert!(body.contains("# my notes"), "header comment lost:\n{body}");
    assert!(!body.contains("# inner note"), "inner comment kept:\n{body}");
    assert!(!body.contains("# keep this"), "inline comment kept:\n{body}");
    assert!(
        body.contains("\"image/gif\" = \"deny\""),
        "new type missing:\n{body}"
    );
    let (gif, png, txt) = (
        body.find("\"image/gif\"").unwrap(),
        body.find("\"image/png\"").unwrap(),
        body.find("\"text/plain\"").unwrap(),
    );
    assert!(gif < png && png < txt, "rules not sorted:\n{body}");
    assert!(!rules.ensure(&list(&["image/gif"])));
}

#[test]
fn creates_the_file_when_missing() {
    let mut rules = MimeRules::load(Some(s("mimetypes")), MimePolicy::Deny, FileRead::NotFound);
    let body = persist(&mut rules).expect("load should ask for the rules file");
    assert!(body.contains("[rules]"), "skeleton not written:\n{body}");
}

#[test]
fn an_old_line_format_file_is_replaced_with_a_fresh_skeleton() {
    let mut rules = loaded("image/png allow\ntext/plain deny\n", MimePolicy::Deny);
    assert!(persist(&mut rules).unwrap().contains("[rules]"));
}

#[test]
fn load_does_not_overwrite_the_file_on_a_non_notfound_read_error() {
    let rules = MimeRules::load(
        Some(s("mimetypes")),
        MimePolicy::Deny,
        FileRead::Failed(s("is a directory")),
    );
    assert!(
        matches!(rules.persist(), Persist::InSync),
        "load overwrote a path it merely failed to read"
    );
}

#[test]
fn open_reports_a_bad_file_and_leaves_every_byte_of_it_alone() {
    let body = "[clipmesh]\nversion = 42\nthis is = = not toml\n";
    let err = MimeRules::open(Some(s("mimetypes")), MimePolicy::Deny, text(body))
        .err()
        .expect("invalid TOML must be reported, not repaired");
    assert!(matches!(err, RulesFileState::Malformed(_)));
    let mut rules = loaded(body, MimePolicy::Deny);
    assert_eq!(persist(&mut rules).unwrap(), fresh());
}

#[test]
fn open_reports_an_absent_or_empty_file_without_creating_one() {
    let missing = MimeRules::open(Some(s("mimetypes")), MimePolicy::Deny, FileRead::NotFound)
        .err()
        .expect("a missing file must be reported");
    assert!(matches!(missing, RulesFileState::Missing));
    let empty = MimeRules::open(Some(s("mimetypes")), MimePolicy::Deny, text("  \n\t\n"))
        .err()
        .expect("a whitespace-only file must be reported");
    assert!(matches!(empty, RulesFileState::Empty));
    let failed = MimeRules::open(
        Some(s("mimetypes")),
        MimePolicy::Deny,
        FileRead::Failed(s("denied")),
    )
    .err()
    .expect("a file that can't be read must be reported");
    assert!(matches!(failed, RulesFileState::Unreadable(ref why) if why == "denied"));
    assert!(missing.warrants_a_rewrite() && empty.warrants_a_rewrite());
    assert!(!failed.warrants_a_rewrite());
}

#[test]
fn empty_existing_file_gets_the_skeleton() {
    let mut rules = loaded("", MimePolicy::Deny);
    assert!(persist(&mut rules).unwrap().contains("[rules]"));
}

#[test]
fn reload_if_changed_rereads_after_an_edit() {
    let mut rules = loaded("[rules]\n\"image/png\" = \"deny\"\n", MimePolicy::Deny);
    assert!(!rules.allows("image/png", 1));
    assert!(rules.reload_if_changed(text("[rules]\n\"image/png\" = \"allow\"\n")));
    assert!(rules.allows("image/png", 1));
}

#[test]
fn reload_keeps_rules_when_the_file_transiently_disappears() {
    let mut rules = loaded("[rules]\n\"image/png\" = \"allow\"\n", MimePolicy::Deny);
    assert!(rules.allows("image/png", 1));
    assert!(!rules.reload_if_changed(FileRead::NotFound));
    assert!(rules.allows("image/png", 1));
}

#[test]
fn reload_ignores_an_empty_read_and_keeps_rules() {
    let mut rules = loaded("[rules]\n\"image/png\" = \"allow\"\n", MimePolicy::Deny);
    assert!(rules.allows("image/png", 1));
    assert!(
        !rules.reload_if_changed(text("")),
        "empty read must be no-change"
    );
    assert!(
        rules.allows("image/png", 1),
        "rules must survive an empty read"
    );
    assert!(rules.reload_if_changed(text("[rules]\n\"image/png\" = \"deny\"\n")));
    assert!(!rules.allows("image/png", 1));
}

#[test]
fn reload_keeps_rules_when_the_new_content_is_not_toml() {
    let mut rules = loaded("[rules]\n\"image/png\" = \"allow\"\n", MimePolicy::Deny);
    assert!(
        !rules.reload_if_changed(text("this is = = not toml")),
        "invalid TOML must not be applied"
    );
    assert!(rules.allows("image/png", 1));
    assert!(
        rules.reload_if_changed(text("[rules]\n\"image/png\" = \"deny\"\n")),
        "valid fix must be applied"
    );
    assert!(!rules.allows("image/png", 1));
}

#[test]
fn a_fresh_rules_file_is_written_exactly_as_the_example() {
    // The built-in skeleton is laid out as a saved file is, so that a fresh file is it.
    let mut rules = loaded(TEMPLATE, MimePolicy::Deny);
    rules.set_rule("text/plain", true);
    assert_eq!(persist(&mut rules).unwrap(), fresh());
}

#[test]
fn the_shipped_defaults_cover_the_unbounded_growth_cases() {
    let mut rules = loaded(&fresh(), MimePolicy::Deny);
    for mime in [
        "JAVA_DATATRANSFER_COOKIE_f9e96042",
        "JAVA_DATATRANSFER_COOKIE_0000abcd",
        "text/plain;charset=utf-16le",
        "x-special/gnome-copied-files",
    ] {
        assert!(!rules.allows(mime, 1), "{mime} should be denied by default");
        assert!(
            !rules.ensure(&list(&[mime])),
            "{mime} is covered by a glob, so it must not be appended"
        );
    }
    for mime in ["text/plain", "text/plain;charset=utf-8", "image/png"] {
        assert!(rules.allows(mime, 1), "{mime} should be allowed by default");
    }
}

#[test]
fn ensure_does_not_duplicate_a_type_already_present_as_an_invalid_value() {
    let mut rules = loaded("[rules]\n\"image/png\" = \"allwo\"\n", MimePolicy::Deny);
    assert!(!rules.ensure(&list(&["image/png"])), "ensure duplicated a type");
}

#[test]
fn a_failed_write_leaves_the_changes_pending() {
    let mut rules = MimeRules::load(
        Some(s("mimetypes")),
        MimePolicy::Deny,
        FileRead::Failed(s("is a directory")),
    );
    assert!(rules.ensure(&list(&["text/plain"])));
    match rules.persist() {
        Persist::Write { text, .. } => {
            assert!(
                !rules.persisted(text, false),
                "a failed write must report not-in-sync"
            );
        }
        _ => panic!("the change must be written"),
    }
    assert!(rules.is_dirty(), "the change must stay pending");
}

#[test]
fn a_rollback_with_nothing_on_disk_keeps_the_ruleset() {
    let mut rules = MimeRules::load(
        Some(s("nonexistent/mimetypes")),
        MimePolicy::Deny,
        FileRead::NotFound,
    );
    assert!(
        rules.allows("text/plain", 10),
        "the built-in template's rules must be live"
    );
    match rules.snapshot_baseline(1, 0, 1 << 20) {
        SnapshotStep::Write { snapshot, .. } => {
            let r = rules.finish_snapshot(snapshot, false);
            assert!(matches!(r, Err(SnapshotError::WriteFailed)));
        }
        _ => panic!("the snapshot must be written"),
    }
    assert!(
        rules.allows("text/plain", 10),
        "the rollback wiped the ruleset; every type is now denied until restart"
    );
    assert!(rules.is_dirty(), "the unwritten change must stay pending");
}

#[test]
fn persist_only_writes_when_dirty() {
    let mut rules = loaded("[rules]\n\"image/png\" = \"allow\"\n", MimePolicy::Deny);
    assert!(!rules.is_dirty());
    assert!(rules.ensure(&list(&["text/plain"])));
    assert!(rules.is_dirty());
    assert!(persist(&mut rules).is_some());
    assert!(!rules.is_dirty());
    assert!(persist(&mut rules).is_none());
}

#[test]
fn a_ruleset_without_a_file_has_nowhere_to_write() {
    let mut rules = MimeRules::load(None, MimePolicy::Deny, FileRead::NotFound);
    assert!(rules.ensure(&list(&["text/plain"])));
    assert!(matches!(rules.persist(), Persist::NoFile));
}

#[test]
fn has_unseen_reports_types_without_a_rule() {
    let rules = loaded("[rules]\n\"image/png\" = \"allow\"\n", MimePolicy::Deny);
    assert!(!rules.has_unseen(&list(&["image/png"])));
    assert!(rules.has_unseen(&list(&["text/plain"])));
}

#[test]
fn a_snapshot_that_cannot_persist_rolls_the_version_back() {
    let mut rules = loaded("[rules]\n\"image/png\" = \"allow\"\n", MimePolicy::Deny);
    let own: u128 = 9;
    let before = rules.version(own, 77);

    let err = rules.snapshot_at(Version::new(9_999, own), 1);
    assert!(matches!(
        err,
        SnapshotStep::Failed(SnapshotError::TooLarge { .. })
    ));
    assert_eq!(
        rules.version(own, 77),
        before,
        "a rejected snapshot must not leave its version behind"
    );

    match rules.snapshot_at(Version::new(9_999, own), usize::MAX) {
        SnapshotStep::Write { snapshot, path } => {
            assert_eq!(path, "mimetypes");
            let done = rules
                .finish_snapshot(snapshot, true)
                .expect("should persist");
            assert_eq!(done.version.stamp, 9_999);
            assert_eq!(rules.version(own, 77), done.version);
            assert!(
                done.body.contains("9999"),
                "the returned body must carry the version it announces: {}",
                done.body
            );
        }
        _ => panic!("should ask for a write"),
    }
}

#[test]
fn snapshot_baseline_does_not_bump_the_version() {
    let origin = Uuid::from_u128(3);
    let mut rules = loaded(
        &format!("[clipmesh]\nversion = 42\norigin = \"{origin}\"\n\n[rules]\n"),
        MimePolicy::Deny,
    );
    let snapshot = match rules.snapshot_baseline(99, 5, usize::MAX) {
        SnapshotStep::Done(snapshot) => snapshot,
        SnapshotStep::Write { snapshot, .. } => rules
            .finish_snapshot(snapshot, true)
            .expect("should persist"),
        SnapshotStep::Failed(_) => panic!("should persist"),
    };
    assert_eq!(snapshot.version, Version::new(42, 3), "kept, not bumped");
}

#[test]
fn recompiling_after_a_rule_change_sees_the_new_verdict() {
    let mut rules = loaded("[rules]\n\"image/png\" = \"allow\"\n", MimePolicy::Deny);
    assert!(rules.compile().allows("image/png", 1));

    rules.set_rule("image/png", false);
    assert!(
        !rules.compile().allows("image/png", 1),
        "a recompiled view must see the flipped rule"
    );

    rules.set_rule("image/gif", true);
    let compiled = rules.compile();
    assert!(compiled.any_match("image/gif"));
    assert!(!compiled.has_unseen(&list(&["image/gif"])));
    assert!(compiled.has_unseen(&list(&["image/tiff"])));
}

#[test]
fn version_reads_the_clipmesh_table() {
    let origin = Uuid::from_u128(7);
    let rules = loaded(
        &format!("[clipmesh]\nversion = 1234\norigin = \"{origin}\"\n[rules]\n\"image/png\" = \"allow\"\n"),
        MimePolicy::Deny,
    );
    assert_eq!(rules.version(0, 1), Version::new(1234, 7));
    assert!(rules.has_version_header());
}

#[test]
fn version_falls_back_to_mtime_baseline_without_a_clipmesh_table() {
    let rules = loaded("[rules]\n\"image/png\" = \"allow\"\n", MimePolicy::Deny);
    let own: u128 = 9;
    let Version { stamp, origin } = rules.version(own, 1_700_000_000_000);
    assert_eq!(stamp, 1_700_000_000_000);
    assert_eq!(origin, own);
    assert!(!rules.has_version_header());
}

#[test]
fn set_version_writes_and_replaces_a_single_version() {
    let mut rules = loaded("[rules]\n\"image/png\" = \"allow\"\n", MimePolicy::Deny);
    rules.set_version(Version::new(100, 3));
    persist(&mut rules);
    rules.set_version(Version::new(200, 3));
    let body = persist(&mut rules).unwrap();
    assert_eq!(body.matches("version =").count(), 1, "one version:\n{body}");
    assert_eq!(rules.version(0, 1), Version::new(200, 3));
    assert!(rules.allows("image/png", 1), "rules survive version writes");
    // what was written reads back as the same version
    assert_eq!(loaded(&body, MimePolicy::Deny).version(0, 1), Version::new(200, 3));
}

#[test]
fn normalised_layout_is_clean_and_sorted() {
    let rules = loaded(
        "[rules]\n\"image/png\" = \"deny\"\n\"image/gif\" = \"allow\"\n",
        MimePolicy::Deny,
    );
    assert_eq!(
        rules.body(),
        "[rules]\n\"image/gif\" = \"allow\"\n\"image/png\" = \"deny\"\n"
    );
}

#[test]
fn body_keeps_the_header_and_renders_valid_toml() {
    let rules = loaded(
        "# note\n[rules]\n\"image/png\" = \"allow\"\n",
        MimePolicy::Deny,
    );
    let body = rules.body();
    assert!(body.contains("# note"), "header lost:\n{body}");
    assert!(
        body.contains("\"image/png\" = \"allow\""),
        "rule lost:\n{body}"
    );
    let mut reparsed = MimeRules::load(None, MimePolicy::Deny, FileRead::NotFound);
    reparsed.replace_from(body);
    assert!(reparsed.allows("image/png", 1));
}

#[test]
fn replace_from_swaps_the_whole_ruleset() {
    let mut rules = loaded("[rules]\n\"image/png\" = \"deny\"\n", MimePolicy::Deny);
    assert!(!rules.allows("image/png", 1));
    rules.replace_from(s(
        "[rules]\n\"image/png\" = \"allow\"\n\"text/plain\" = \"allow\"\n",
    ));
    persist(&mut rules);
    assert!(rules.allows("image/png", 1));
    assert!(rules.allows("text/plain", 1));
}

#[test]
fn replace_from_ignores_a_non_toml_body() {
    let mut rules = loaded("[rules]\n\"image/png\" = \"deny\"\n", MimePolicy::Deny);
    rules.replace_from(s("not toml = ="));
    assert!(
        !rules.allows("image/png", 1),
        "garbage body must be ignored"
    );
}

#[test]
fn reload_if_changed_reports_whether_it_changed() {
    let mut rules = loaded("[rules]\n\"image/png\" = \"deny\"\n", MimePolicy::Deny);
    assert!(
        !rules.reload_if_changed(text("[rules]\n\"image/png\" = \"deny\"\n")),
        "no change immediately after load"
    );
    assert!(
        rules.reload_if_changed(text("[rules]\n\"image/png\" = \"allow\"\n")),
        "external edit must report changed"
    );
    assert!(
        !rules.reload_if_changed(text("[rules]\n\"image/png\" = \"allow\"\n")),
        "no change on re-check"
    );
}

#[test]
fn reload_if_changed_is_a_noop_after_our_own_write() {
    let mut rules = loaded("[rules]\n\"image/png\" = \"allow\"\n", MimePolicy::Deny);
    assert!(rules.ensure(&list(&["text/plain"])));
    let on_disk = persist(&mut rules).unwrap();
    assert!(!rules.reload_if_changed(text(&on_disk)));
    assert!(!rules.ensure(&list(&["text/plain"])));
}

#[test]
fn own_write_of_an_unsorted_file_does_not_trigger_a_spurious_reload() {
    let mut rules = loaded(
        "[rules]\n\"z/z\" = \"allow\"\n\"a/a\" = \"deny\"\n",
        MimePolicy::Deny,
    );
    assert!(rules.ensure(&list(&["m/m"])));
    let written = persist(&mut rules).unwrap();
    assert!(
        !rules.reload_if_changed(text(&written)),
        "our own (sorting) write must not look like an external change"
    );
}

#[test]
fn revert_to_loaded_discards_in_memory_changes() {
    let mut rules = loaded("[rules]\n\"image/png\" = \"deny\"\n", MimePolicy::Deny);
    rules.set_version(Version::new(999, 1));
    assert!(rules.has_version_header());
    rules.revert_to_loaded();
    assert!(
        !rules.has_version_header(),
        "version bump must be rolled back"
    );
    assert!(!rules.allows("image/png", 1));
}

#[test]
fn a_glob_suppresses_appending_covered_types() {
    let mut rules = loaded(
        "[rules]\n\"JAVA_DATATRANSFER*\" = \"deny\"\n",
        MimePolicy::Deny,
    );
    let covered = list(&["JAVA_DATATRANSFER_COOKIE_f9e96042"]);
    assert!(!rules.has_unseen(&covered), "the glob already covers it");
    assert!(!rules.ensure(&covered), "so nothing is appended");
    let uncovered = list(&["text/plain"]);
    assert!(rules.has_unseen(&uncovered));
    assert!(
        rules.ensure(&uncovered),
        "an unmatched type is still appended"
    );
}

#[test]
fn remove_matching_collapses_entries_and_echoes_them() {
    let mut rules = loaded(
        "[rules]\n\
         \"text/uri-list;charset=utf-16\" = \"deny\"\n\
         \"text/uri-list;charset=utf-16be\" = \"deny\"\n\
         \"text/uri-list;charset=utf-8\" = \"allow\"\n",
        MimePolicy::Deny,
    );
    let removed = rules.remove_matching("*;charset=utf-16*");
    assert_eq!(
        removed,
        vec![
            "\"text/uri-list;charset=utf-16\" = \"deny\"".to_string(),
            "\"text/uri-list;charset=utf-16be\" = \"deny\"".to_string(),
        ],
        "only the utf-16 entries are removed, rendered copy-pasteably"
    );
    rules.set_rule("*;charset=utf-16*", false);
    persist(&mut rules);
    assert!(rules.allows("text/uri-list;charset=utf-8", 1));
    assert!(!rules.allows("text/uri-list;charset=utf-16", 1));
    let body = rules.body();
    assert!(body.contains("\"*;charset=utf-16*\" = \"deny\""));
    assert!(
        !body.contains("utf-16be"),
        "the specific utf-16 entries are gone"
    );
}

#[test]
fn remove_matching_does_not_list_the_pattern_itself() {
    let mut rules = loaded(
        "[rules]\n\"JAVA*\" = \"deny\"\n\"JAVA_X\" = \"allow\"\n",
        MimePolicy::Deny,
    );
    let removed = rules.remove_matching("JAVA*");
    assert_eq!(
        removed,
        vec!["\"JAVA_X\" = \"allow\"".to_string()],
        "the equal-key glob is updated in place, not reported as removed"
    );
}

#[test]
fn set_rule_adds_and_replaces() {
    let mut rules = loaded("[rules]\n\"image/png\" = \"deny\"\n", MimePolicy::Deny);
    rules.set_rule("image/png", true);
    rules.set_rule("image/*", false);
    assert!(rules.allows("image/png", 1), "exact replace took effect");
    assert!(!rules.allows("image/gif", 1), "the new glob denies others");
}

#[test]
fn apply_glob_flips_an_existing_glob_in_place() {
    let mut rules = loaded(
        "[rules]\n\"JAVA*\" = \"allow\"\n\"JAVA_X\" = \"allow\"\n",
        MimePolicy::Deny,
    );
    let removed = rules.apply_glob(false, "JAVA*");
    assert_eq!(removed, vec!["\"JAVA_X\" = \"allow\"".to_string()]);
    persist(&mut rules);
    let body = rules.body();
    assert!(
        body.contains("\"JAVA*\" = \"deny\""),
        "glob flipped to deny"
    );
    assert!(!body.contains("JAVA_X"), "covered exact entry removed");
    assert!(!rules.allows("JAVA_DATATRANSFER_COOKIE_x", 1));
}

#[test]
fn an_edit_replaces_the_same_key_in_other_letters() {
    let body = "[rules]\n\"TEXT/PLAIN\" = \"deny\"\n";
    let mut rules = loaded(body, MimePolicy::Deny);
    assert!(!rules.allows("text/plain", 1));
    let removed = rules.apply_glob(true, "text/plain");
    assert_eq!(removed, ["\"TEXT/PLAIN\" = \"deny\""]);
    assert!(rules.allows("text/plain", 1));
    assert!(rules.allows("Text/Plain", 1));
    assert_eq!(persist(&mut rules).unwrap(), "[rules]\n\"text/plain\" = \"allow\"\n");
    let mut rules = loaded("[rules]\n\"java*\" = \"allow\"\n", MimePolicy::Deny);
    assert_eq!(rules.apply_glob(false, "JAVA*"), ["\"java*\" = \"allow\""]);
    assert!(!rules.allows("JAVA_X", 1));
}

#[test]
fn an_inline_table_is_echoed_as_it_is_spelled() {
    let body = "[rules]\nbare = { rule = 'allow',  max = \"4MiB\" } # note\n";
    let mut rules = loaded(body, MimePolicy::Deny);
    assert_eq!(
        rules.apply_glob(false, "b*"),
        ["\"bare\" = { rule = 'allow',  max = \"4MiB\" }"]
    );
}

#[test]
fn a_sub_table_is_echoed_with_the_same_fields() {
    let body = "[rules]\n[rules.\"a/b\"] # note\nrule = 'deny' # why\nmax = 0x10\n\
                deep.er = [ 1, 2 ]\n[rules.\"a/b\".sub]\nx = true\n[[rules.\"a/b\".list]]\ny = 1\n";
    let mut rules = loaded(body, MimePolicy::Deny);
    assert_eq!(
        rules.apply_glob(true, "a/*"),
        ["\"a/b\" = { rule = 'deny', max = 0x10, deep = { er = [ 1, 2 ] }, \
          sub = { x = true }, list = [{ y = 1 }] }"]
    );
    let flat = "[rules.\"a/b\"]\nrule = \"\"\"\nallow\"\"\" # why\n\"max\"  =  '4MiB'\n";
    let mut rules = loaded(flat, MimePolicy::Deny);
    let before = rules.rules_report();
    let lines = rules.apply_glob(false, "a/*");
    let again = loaded(&format!("[rules]\n{}\n", lines[0]), MimePolicy::Deny);
    let after = again.rules_report();
    assert_eq!((after.len(), before.len()), (1, 1));
    assert_eq!((&after[0].key, after[0].verdict), (&before[0].key, before[0].verdict));
    assert_eq!(after[0].max, Some("4MiB".to_string()));
}

#[test]
fn warnings_come_in_the_order_of_the_document() {
    let body = "[rules]\n\"z/z\" = \"nope\"\n\"a/a\" = 5\n\"m/m\" = \"allwo\"\n";
    let warnings = loaded(body, MimePolicy::Deny).warn_invalid_rules("mimetypes");
    let named: Vec<bool> = ["z/z", "a/a", "m/m"]
        .iter()
        .zip(&warnings)
        .map(|(key, warning)| warning.contains(&format!("{key:?}")))
        .collect();
    assert_eq!(named, [true, true, true], "{warnings:?}");
}

#[test]
fn a_key_with_many_quotes_in_a_row_is_kept() {
    for quote in ["'", "\""] {
        let key = quote.repeat(300);
        let mut rules = loaded("[rules]\n", MimePolicy::Deny);
        assert!(rules.ensure(&[key.clone()]));
        rules.set_rule(&key, true);
        let written = persist(&mut rules).unwrap();
        assert!(loaded(&written, MimePolicy::Deny).allows(&key, 1));
        assert_eq!(rules.apply_glob(false, "*").len(), 1);
    }
}

#[test]
fn what_stands_around_the_rules_is_kept() {
    let body = "# top\n[clipmesh] # managed\nversion = 7\n\n# above\n[rules] # behind\n\
                # among\nb = \"deny\" # after\n\"a\"   =   'allow'\n\n[other]\nx = 1\n";
    let mut rules = loaded(body, MimePolicy::Deny);
    rules.set_rule("c", true);
    assert_eq!(
        persist(&mut rules).unwrap(),
        "# top\n[clipmesh] # managed\nversion = 7\n\n# above\n[rules] # behind\n\
         \"a\" = 'allow'\n\"b\" = \"deny\"\n\"c\" = \"allow\"\n\n[other]\nx = 1\n"
    );
}

#[test]
fn an_emptied_and_refilled_table_keeps_its_place() {
    let body = "# a\n[rules]\n'x/y' = 'deny'\n# b\n[clipmesh]\nversion = 1\n";
    let mut rules = loaded(body, MimePolicy::Deny);
    assert_eq!(rules.apply_glob(true, "*"), ["\"x/y\" = 'deny'"]);
    assert_eq!(
        persist(&mut rules).unwrap(),
        "# a\n[rules]\n\"*\" = \"allow\"\n# b\n[clipmesh]\nversion = 1\n"
    );
}

#[test]
fn rules_under_dotted_keys_are_saved_under_dotted_keys() {
    let deep = ["k"; 77].join(".");
    let body = format!("rules.b = \"deny\"\nrules.{deep} = 1\n");
    let mut rules = loaded(&body, MimePolicy::Deny);
    rules.set_rule("a", true);
    let written = persist(&mut rules).unwrap();
    assert!(written.starts_with("rules.\"a\" = \"allow\"\nrules.\"b\" = \"deny\"\n"));
    let again = loaded(&written, MimePolicy::Deny);
    assert!(again.allows("a", 1) && !again.allows("b", 1));
}

#[test]
fn rules_report_flags_redundant_overrides_and_invalid() {
    let rules = loaded(
        "[rules]\n\
         \"*;charset=utf-16*\" = \"deny\"\n\
         \"text/plain;charset=utf-16\" = \"deny\"\n\
         \"text/uri-list;charset=utf-16\" = \"allow\"\n\
         \"image/*\" = \"deny\"\n\
         \"image/png\" = \"allow\"\n\
         \"text/html\" = \"nope\"\n",
        MimePolicy::Deny,
    );
    let report = rules.rules_report();
    let find = |k: &str| {
        report
            .iter()
            .find(|r| r.key == k)
            .unwrap_or_else(|| panic!("no report entry for {k}"))
    };

    let r = find("text/plain;charset=utf-16");
    assert_eq!(r.verdict, Verdict::Deny);
    assert_eq!(r.overlaps.len(), 1);
    assert_eq!(r.overlaps[0].relation, Relation::Redundant);
    assert_eq!(r.overlaps[0].key, "*;charset=utf-16*");
    assert_eq!(r.overlaps[0].verdict, Verdict::Deny);

    let r = find("text/uri-list;charset=utf-16");
    assert_eq!(r.verdict, Verdict::Allow);
    assert_eq!(r.overlaps[0].relation, Relation::Overrides);
    assert_eq!(find("image/png").overlaps[0].relation, Relation::Overrides);

    assert!(find("image/*").overlaps.is_empty());
    assert!(find("*;charset=utf-16*").overlaps.is_empty());

    assert_eq!(find("text/html").verdict, Verdict::Invalid);
}

#[test]
fn bare_valid_keys_are_quoted_on_save() {
    let rules = loaded(
        "[rules]\nSTRING = \"allow\"\nTEXT = \"deny\"\n",
        MimePolicy::Deny,
    );
    let body = rules.body();
    assert!(
        body.contains("\"STRING\" = \"allow\""),
        "STRING must be quoted"
    );
    assert!(body.contains("\"TEXT\" = \"deny\""), "TEXT must be quoted");
    assert!(
        !body.contains("\nSTRING ") && !body.contains("\nTEXT "),
        "no bare keys remain"
    );
}

#[test]
fn ensure_does_not_re_append_a_type_seen_in_a_different_case() {
    let mut rules = loaded("[rules]\n\"TEXT/PLAIN\" = \"deny\"\n", MimePolicy::Deny);
    let seen = list(&["text/plain"]);
    assert!(
        !rules.has_unseen(&seen),
        "a case-variant of an existing key is already covered"
    );
    assert!(!rules.ensure(&seen), "so no duplicate entry is appended");
    assert_eq!(rules.rules_report().len(), 1, "still exactly one rule");
}

#[test]
fn remove_matching_renders_a_subtable_rule_not_a_blank_line() {
    let mut rules = loaded(
        "[rules]\n[rules.\"image/tiff\"]\nrule = \"allow\"\nmax = \"16MiB\"\n",
        MimePolicy::Deny,
    );
    let removed = rules.remove_matching("image/*");
    assert_eq!(
        removed,
        vec!["\"image/tiff\" = { rule = \"allow\", max = \"16MiB\" }".to_string()],
        "a sub-table rule echoes as a non-blank inline line"
    );
}

#[test]
fn a_rule_is_one_of_two_words() {
    assert!(parse_rule("allow", None).unwrap().allow);
    assert!(!parse_rule("deny", None).unwrap().allow);
    assert!(parse_rule("allwo", None).is_none());
    assert_eq!(parse_rule("allow", Some("1KiB")).unwrap().max_size, Some(1024));
    assert_eq!(usable_cap(Some("0B")), None);
    assert_eq!(usable_cap(None), None);
    assert_eq!((rule_word(true), rule_word(false)), ("allow", "deny"));
}

#[test]
fn invalid_entries_are_warned_of() {
    let rules = loaded(
        "[rules]\n\"a/a\" = \"nope\"\n\"b/b\" = 5\n\"c/c\" = { rule = \"allow\", max = \"big\" }\n\"d/d\" = \"allow\"\n",
        MimePolicy::Deny,
    );
    let warnings = rules.warn_invalid_rules("mimetypes");
    assert_eq!(warnings.len(), 3, "{warnings:?}");
    assert!(warnings[0].contains("rule must be \"allow\" or \"deny\", got \"nope\""));
    assert!(warnings[2].contains("ignoring the max-size \"big\""));
}

#[test]
fn recording_a_type_keeps_every_answer() {
    let mut rules = loaded("[rules]\n\"image/*\" = \"allow\"\n", MimePolicy::Deny);
    let before: Vec<bool> = ["image/png", "text/plain", "a/b"]
        .iter()
        .map(|m| rules.allows(m, 5))
        .collect();
    assert!(rules.ensure(&list(&["text/plain", "a/b"])));
    assert!(!rules.ensure(&list(&["text/plain", "a/b"])), "twice adds nothing");
    let after: Vec<bool> = ["image/png", "text/plain", "a/b"]
        .iter()
        .map(|m| rules.allows(m, 5))
        .collect();
    assert_eq!(before, after);
}

#[test]
fn a_saved_ruleset_reads_back_whatever_its_layout() {
    let layouts = [
        "",
        "# only a note",
        "[rules]\n",
        "[rules]\n\"z/z\" = 'deny' # why\n# a note\n\"a/a\" = \"\"\"allow\"\"\"\n",
        "rules.\"a/a\" = \"allow\"\n# a note\nrules . \"b/b\" . rule = \"deny\"\n[rules.\"c/c\"]\nrule = \"allow\"\n",
        "[rules.\"c/c\"] # a block\nrule = \"allow\"\nmax = \"4KiB\"\n\n[ clipmesh ]\nversion = 3\norigin = \"nobody\"\n[rules]\n\"a/a\".rule = \"deny\"\n",
        "title = \"x\"\r\n[rules]\r\n\"a/a\" = \"allow\"\r\n'b\\c' = \"\"\"\r\nde\\\r\n  ny\"\"\"\r\n[[other]]\r\nx = 1\r\n[[other]]\r\nx = { y.z = [1,\r\n# in\r\n 2] }\r\n",
        "[[rules]]\nx = 1\n",
        "clipmesh = { version = 4 }\n[rules]\n\"a\\nb\" = \"allow\"\n\"\" = 5\n",
    ];
    let own = Uuid::from_u128(7).as_u128();
    for layout in layouts {
        let mut rules = loaded(layout, MimePolicy::Deny);
        for edit in 0..4 {
            match edit {
                0 => {
                    rules.ensure(&list(&["x/new", "tab\there", "quote\"d", "it's", "two\nlines"]));
                }
                1 => {
                    rules.apply_glob(true, "image/*");
                }
                2 => {
                    rules.apply_glob(false, "*");
                }
                _ => rules.set_version(Version::new(99, own)),
            }
            let body = rules.body();
            let again = MimeRules::open(Some(s("mimetypes")), MimePolicy::Deny, text(&body));
            let Ok(again) = again else {
                panic!("{layout:?} does not read back after edit {edit}:\n{body}");
            };
            let shown = |r: &MimeRules| format!("{:?}", r.rules_report());
            assert_eq!(shown(&again), shown(&rules), "{layout:?} after edit {edit}");
            assert_eq!(again.version(own, 1), rules.version(own, 1), "{layout:?}");
            assert_eq!(again.body(), body, "{layout:?}: saved twice alike");
        }
    }
}

#[test]
fn a_commented_value_in_place_of_the_rules_table_spoils_the_file() {
    let mut rules = loaded("# a note\nrules = 5\n", MimePolicy::Deny);
    rules.apply_glob(true, "image/*");
    let body = rules.body();
    assert!(rules.allows("image/png", 1));
    assert!(matches!(
        MimeRules::open(Some(s("mimetypes")), MimePolicy::Deny, text(&body)),
        Err(RulesFileState::Malformed(_))
    ));
}
