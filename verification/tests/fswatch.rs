use clipmesh::fsutil::parent_dir;
use clipmesh::fswatch::{
    target_site, DirState, Reconcile, Target, TargetSite, WatchAction, WatchEvent, Watcher,
};

fn s(x: &str) -> String {
    x.to_string()
}

fn wrote(wd: i32, name: &str) -> WatchEvent {
    WatchEvent::Named {
        wd,
        name: s(name),
        wrote: true,
        created: false,
        link: false,
    }
}

fn created(wd: i32, name: &str, link: bool) -> WatchEvent {
    WatchEvent::Named {
        wd,
        name: s(name),
        wrote: false,
        created: true,
        link,
    }
}

/// A watcher of `/c/config.toml` and `/c/mimetypes`, with the watch 1 on `/c`.
fn watching() -> Watcher {
    let mut w = Watcher::new(s("/c/config.toml"), Some(s("/c/mimetypes")));
    for target in [Target::Config, Target::Rules] {
        assert_eq!(w.link_watch(target), Some((s("/c"), true)));
        w.link_watched(target, 1);
    }
    w
}

/// Points the rules symlink at `path`, whose directory gets the watch `wd`.
fn point(w: &mut Watcher, path: &str, wd: i32) -> Option<i32> {
    match w.reconcile_target(Target::Rules, TargetSite::Watch(s(path))) {
        Reconcile::Watch { dir, pending, .. } => {
            assert_eq!(dir, parent_dir(path));
            w.target_watched(pending, Some(wd))
        }
        _ => panic!("{path} is to be watched"),
    }
}

#[test]
fn target_site_resolves_a_symlinked_file_to_its_real_dir() {
    let resolved = s("/d/dotfiles/mimetypes");
    let TargetSite::Watch(p) = target_site(true, resolved, DirState::Directory) else {
        panic!("a symlink yields a watchable target site");
    };
    assert_eq!(parent_dir(&p), "/d/dotfiles");
    assert!(p.ends_with("/mimetypes"));
}

#[test]
fn target_site_is_notsymlink_for_a_regular_file() {
    assert!(matches!(
        target_site(false, s("/d/config.toml"), DirState::Directory),
        TargetSite::NotSymlink
    ));
}

#[test]
fn target_site_is_broken_when_the_target_dir_is_missing() {
    for dir in [DirState::Missing, DirState::Other, DirState::Unknown] {
        // Broken carries the resolved intended target, used for the warning log.
        let TargetSite::Broken(intended) = target_site(true, s("/d/nope/config.toml"), dir) else {
            panic!("a symlink whose target dir is missing must be Broken");
        };
        assert_eq!(intended, "/d/nope/config.toml");
    }
}

#[test]
fn editing_the_rules_file_reloads_it() {
    let w = watching();
    assert_eq!(
        w.run(&[wrote(1, "mimetypes")]),
        [
            WatchAction::Reconcile(Target::Rules),
            WatchAction::ReloadRules
        ]
    );
    assert_eq!(
        w.run(&[wrote(1, "config.toml")]),
        [
            WatchAction::Reconcile(Target::Config),
            WatchAction::ReportConfig
        ]
    );
    assert!(w.run(&[wrote(1, "unrelated"), wrote(9, "mimetypes")]).is_empty());
    assert!(w.run(&[WatchEvent::Other]).is_empty());
}

#[test]
fn editing_a_symlinked_rules_target_pings_the_engine() {
    let mut w = watching();
    assert_eq!(point(&mut w, "/d/mimetypes", 2), None);
    assert_eq!(w.run(&[wrote(2, "mimetypes")]), [WatchAction::ReloadRules]);
}

#[test]
fn a_bare_create_of_a_regular_rules_file_does_not_ping_until_written() {
    let w = watching();
    assert!(w.run(&[created(1, "mimetypes", false)]).is_empty());
    assert!(!w.run(&[wrote(1, "mimetypes")]).is_empty());
}

#[test]
fn repointing_the_rules_symlink_follows_to_the_new_target() {
    let mut w = watching();
    point(&mut w, "/a/mimetypes", 2);
    assert!(w
        .run(&[created(1, "mimetypes", true)])
        .contains(&WatchAction::Reconcile(Target::Rules)));
    // The watch of the old target is not needed any more.
    assert_eq!(point(&mut w, "/b/mimetypes", 3), Some(2));
    assert!(w.run(&[wrote(2, "mimetypes")]).is_empty());
    assert_eq!(w.run(&[wrote(3, "mimetypes")]), [WatchAction::ReloadRules]);
    // Resolving the same target again is settled.
    let again = TargetSite::Watch(s("/b/mimetypes"));
    assert!(matches!(
        w.reconcile_target(Target::Rules, again),
        Reconcile::Settled
    ));
    // A link that is replaced by a file leaves nothing beside it to watch.
    assert!(matches!(
        w.reconcile_target(Target::Rules, TargetSite::NotSymlink),
        Reconcile::Unwatch(Some(3))
    ));
}

#[test]
fn a_watch_that_others_need_is_kept() {
    let mut w = watching();
    // The link and its target lie in one directory.
    point(&mut w, "/c/real", 1);
    assert!(matches!(
        w.reconcile_target(Target::Rules, TargetSite::Broken(s("/gone/x"))),
        Reconcile::Unwatch(None)
    ));
}

#[test]
fn a_watched_directory_that_is_replaced_is_watched_again() {
    let mut w = watching();
    assert_eq!(
        w.run(&[WatchEvent::Ignored { wd: 1 }]),
        [
            WatchAction::Rewatch(Target::Config),
            WatchAction::Rewatch(Target::Rules),
            WatchAction::ReloadRules,
            WatchAction::ReportConfig,
        ]
    );
    w.forget(Target::Config);
    w.forget(Target::Rules);
    assert!(w.run(&[wrote(1, "mimetypes")]).is_empty());
    for target in [Target::Config, Target::Rules] {
        w.link_watch(target).unwrap();
        w.link_watched(target, 5);
    }
    assert!(!w.run(&[wrote(5, "mimetypes")]).is_empty());
}

#[test]
fn lost_events_check_both_files() {
    let w = watching();
    assert_eq!(
        w.run(&[WatchEvent::Overflow]),
        [
            WatchAction::Reconcile(Target::Config),
            WatchAction::Reconcile(Target::Rules),
            WatchAction::ReloadRules,
            WatchAction::ReportConfig,
        ]
    );
}

#[test]
fn watching_more_never_watches_less() {
    let mut w = Watcher::new(s("/c/config.toml"), None);
    assert_eq!(w.path_of(Target::Rules), None);
    assert!(!w.ensure_watch("/d", false));
    assert!(w.ensure_watch("/d", true));
    assert!(w.ensure_watch("/d", false), "creations stay watched");
    assert!(w.ensure_watch("//d/.", false), "the same directory, spelled otherwise");
    assert!(w.ensure_watch("/d", false));
    assert!(!w.ensure_watch("/e", false));
    assert_eq!(w.link_watch(Target::Rules), None);
}
