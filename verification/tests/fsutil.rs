use clipmesh::fsutil::{
    absolute, join_path, parent_dir, resolve_link_target, temp_path, write_atomic, LinkWalk,
};

#[test]
fn parent_dir_uses_the_parent_or_falls_back_to_dot() {
    assert_eq!(parent_dir("/a/b/c"), "/a/b");
    // A bare file name has an empty parent; use the current directory.
    assert_eq!(parent_dir("config.toml"), ".");
}

#[test]
fn resolve_link_target_follows_a_relative_symlink_against_its_own_dir() {
    // Relative link, like GNU Stow: config.toml -> dotfiles/config.toml,
    // resolved against the link's own dir.
    let resolved = resolve_link_target("/home/u/config.toml", |p: &str| {
        (p == "/home/u/config.toml").then_some("dotfiles/config.toml".to_string())
    });
    assert_eq!(resolved, "/home/u/dotfiles/config.toml");
}

#[test]
fn resolve_link_target_is_a_noop_for_a_plain_file() {
    assert_eq!(
        resolve_link_target("/home/u/plain.toml", |_: &str| None),
        "/home/u/plain.toml"
    );
}

#[test]
fn an_absolute_link_replaces_the_path() {
    let resolved = resolve_link_target("/a/l", |p: &str| {
        (p == "/a/l").then_some("/b/real".to_string())
    });
    assert_eq!(resolved, "/b/real");
    let mut walk = LinkWalk::new("/a/l");
    assert!(walk.follow(Some("m".to_string())));
    assert_eq!(walk.at(), "/a/m");
    assert!(!walk.follow(None));
    assert_eq!(walk.at(), "/a/m");
}

#[test]
fn write_atomic_refuses_an_over_deep_symlink_chain() {
    // real <- l0 <- l1 <- ... <- l9 (10 hops from l9 to real, > the cap)
    let next = |p: &str| -> Option<String> {
        let n: u32 = p.strip_prefix("/d/l")?.strip_suffix(".toml")?.parse().ok()?;
        Some(if n == 0 {
            "/d/real.toml".to_string()
        } else {
            format!("/d/l{}.toml", n - 1)
        })
    };
    let head = "/d/l9.toml";
    let target = resolve_link_target(head, next);
    assert_ne!(target, "/d/real.toml");
    assert!(
        write_atomic(head, &target, next(&target).is_some()).is_err(),
        "should refuse a chain deeper than the hop cap"
    );
    // A chain within the cap reaches the file.
    assert_eq!(resolve_link_target("/d/l3.toml", next), "/d/real.toml");
}

#[test]
fn a_write_goes_beside_its_target() {
    let plan = write_atomic("/d/link.toml", "/e/real.toml", false).unwrap();
    assert_eq!(plan.target, "/e/real.toml");
    assert_eq!(parent_dir(&plan.temp), "/e");
    assert_ne!(plan.temp, plan.target);
    assert!(plan.temp.contains("real.toml"), "{}", plan.temp);
    assert_eq!(temp_path("/e", Some("real.toml".to_string())), plan.temp);
}

#[test]
fn an_absolute_path_replaces_the_base() {
    assert!(absolute("/x"));
    assert!(!absolute("x"));
    assert_eq!(join_path("/a", "b"), "/a/b");
    assert_eq!(join_path("/a/", "b"), "/a/b");
    assert_eq!(join_path("/a", "/b"), "/b");
}
