//! The watcher of the config and MIME-rules files: which directories it watches, what an
//! event means, and what is done about it.
//!
//! The parent directories are watched rather than the files, so that a save by rename is
//! seen; events are matched by file name. Where a watched file is a symlink, the directory
//! of its target is watched too.

use crate::fsutil::{dir_of, parent_dir, path_file_name, paths_match, same_path, std_file_name};
use crate::fsutil::std_parent;
use crate::text::same;
use vstd::prelude::*;

verus! {

/// Which watched file an event pertains to.
#[derive(Debug, Clone, Copy, PartialEq, Eq, Structural)]
pub enum Target {
    Config,
    Rules,
}

impl Target {
    /// What the file is called.
    pub fn label(self) -> (r: &'static str)
        ensures
            r@ == (match self {
                Target::Config => "config file"@,
                Target::Rules => "MIME-rules file"@,
            }),
    {
        match self {
            Target::Config => "config file",
            Target::Rules => "MIME-rules file",
        }
    }
}

/// One flag per watched file.
#[derive(Debug, Clone, Copy, PartialEq, Eq, Structural)]
pub struct PerTarget {
    pub config: bool,
    pub rules: bool,
}

impl PerTarget {
    /// The flag of a file.
    pub open spec fn at(self, target: Target) -> bool {
        match target {
            Target::Config => self.config,
            Target::Rules => self.rules,
        }
    }

    /// No file is flagged.
    pub fn none() -> (r: PerTarget)
        ensures
            forall|t: Target| !(#[trigger] r.at(t)),
    {
        PerTarget { config: false, rules: false }
    }

    /// Flags a file.
    pub fn set(&mut self, target: Target)
        ensures
            forall|t: Target| (#[trigger] final(self).at(t)) == (old(self).at(t) || t == target),
    {
        match target {
            Target::Config => {
                self.config = true;
            },
            Target::Rules => {
                self.rules = true;
            },
        }
    }

    /// The flag of a file.
    pub fn get(self, target: Target) -> (r: bool)
        ensures
            r == self.at(target),
    {
        match target {
            Target::Config => self.config,
            Target::Rules => self.rules,
        }
    }
}

/// Where a watch sits: at the path itself, or at the resolved symlink target.
#[derive(Debug, Clone, Copy, PartialEq, Eq, Structural)]
pub enum Site {
    Link,
    Target,
}

/// What a directory was found to be.
#[derive(Debug, Clone, Copy, PartialEq, Eq, Structural)]
pub enum DirState {
    /// A directory.
    Directory,
    /// Something else.
    Other,
    /// Nothing.
    Missing,
    /// It could not be asked.
    Unknown,
}

/// Resolving a watched file's symlink target yields one of three states.
#[derive(Debug, Clone, PartialEq, Eq)]
pub enum TargetSite {
    /// The path is not a symlink: there is no separate target to watch.
    NotSymlink,
    /// A symlink whose resolved target's directory exists: watch this path (the file itself
    /// may be absent).
    Watch(String),
    /// A symlink whose resolved target has no directory to watch.
    Broken(String),
}

/// The path that is to be watched beside the link, if any.
pub open spec fn desired(site: TargetSite) -> Option<Seq<char>> {
    match site {
        TargetSite::Watch(path) => Some(path@),
        _ => None,
    }
}

/// Resolves a path into a [`TargetSite`], given whether it is a symlink, what it resolves
/// to, and what the directory of that is. A directory that cannot be asked counts as
/// broken: it recovers with the next event at the link.
pub fn target_site(is_symlink: bool, resolved: String, dir: DirState) -> (r: TargetSite)
    ensures
        r == (if !is_symlink {
            TargetSite::NotSymlink
        } else if dir == DirState::Directory {
            TargetSite::Watch(resolved)
        } else {
            TargetSite::Broken(resolved)
        }),
{
    if !is_symlink {
        return TargetSite::NotSymlink;
    }
    if dir == DirState::Directory {
        TargetSite::Watch(resolved)
    } else {
        TargetSite::Broken(resolved)
    }
}

/// One registered watch: the watched file and the descriptor of its directory's watch.
#[derive(Debug, Clone)]
pub struct Entry {
    pub target: Target,
    pub site: Site,
    pub path: String,
    pub wd: i32,
}

/// One registered watch.
#[verifier::ext_equal]
pub struct EntryView {
    pub target: Target,
    pub site: Site,
    pub path: Seq<char>,
    pub wd: i32,
}

impl View for Entry {
    type V = EntryView;

    open spec fn view(&self) -> EntryView {
        EntryView { target: self.target, site: self.site, path: self.path@, wd: self.wd }
    }
}

/// Registered watches.
pub open spec fn entries_of(entries: Seq<Entry>) -> Seq<EntryView> {
    entries.map_values(|e: Entry| e@)
}

/// Whether an event in a directory's watch with a file name targets an entry.
pub open spec fn names(e: EntryView, wd: i32, name: Seq<char>) -> bool {
    e.wd == wd && std_file_name(e.path) == Some(name)
}

impl Entry {
    /// Whether an event with the descriptor `wd` and the file name `name` targets this
    /// entry.
    pub fn matches(&self, wd: i32, name: &str) -> (r: bool)
        ensures
            r == names(self@, wd, name@),
    {
        if self.wd != wd {
            return false;
        }
        match path_file_name(self.path.as_str()) {
            Some(own) => same(own.as_str(), name),
            None => false,
        }
    }
}

/// An event of the kernel.
#[derive(Debug)]
pub enum WatchEvent {
    /// Events were dropped under load.
    Overflow,
    /// A watch was removed: its directory was deleted, moved or unmounted.
    Ignored { wd: i32 },
    /// A file in a watched directory was written (or renamed into place) or created; and
    /// whether it is a symlink now.
    Named { wd: i32, name: String, wrote: bool, created: bool, link: bool },
    /// Anything else.
    Other,
}

/// Whether an event drives a read of its file: a complete write does. A bare creation
/// does only for a symlink, since a regular file is created before its contents are
/// written.
pub open spec fn acts(e: WatchEvent) -> bool {
    match e {
        WatchEvent::Named { wrote, created, link, .. } => wrote || (created && link),
        _ => false,
    }
}

/// Whether an event acts on an entry.
pub open spec fn acts_on(e: WatchEvent, entry: EntryView) -> bool {
    &&& acts(e)
    &&& e matches WatchEvent::Named { wd, name, .. } && names(entry, wd, name@)
}

/// Whether an event may have changed a file. One that says that events were dropped may
/// have changed every file.
pub open spec fn changes(e: WatchEvent, entries: Seq<EntryView>, t: Target) -> bool {
    e is Overflow || exists|j: int|
        0 <= j < entries.len() && acts_on(e, #[trigger] entries[j]) && entries[j].target == t
}

/// Whether an event may have repointed the symlink of a file.
pub open spec fn relinks(e: WatchEvent, entries: Seq<EntryView>, t: Target) -> bool {
    e is Overflow || exists|j: int|
        0 <= j < entries.len() && acts_on(e, #[trigger] entries[j]) && entries[j].target == t
            && entries[j].site == Site::Link
}

/// Whether an event says that a watch of a file is gone.
pub open spec fn kills(e: WatchEvent, entries: Seq<EntryView>, t: Target) -> bool {
    exists|j: int|
        0 <= j < entries.len() && (#[trigger] entries[j]).target == t
            && e == (WatchEvent::Ignored { wd: entries[j].wd })
}

/// What a batch of events says of each file.
#[derive(Debug, Clone, Copy, PartialEq, Eq, Structural)]
pub struct Batch {
    /// It may have changed.
    pub changed: PerTarget,
    /// Its symlink may have been repointed.
    pub reresolve: PerTarget,
    /// Its watch is gone.
    pub dead: PerTarget,
}

/// Whether some event of a batch may have changed a file.
pub open spec fn any_changes(events: Seq<WatchEvent>, entries: Seq<EntryView>, t: Target) -> bool {
    exists|i: int| 0 <= i < events.len() && #[trigger] changes(events[i], entries, t)
}

/// Whether some event of a batch may have repointed the symlink of a file.
pub open spec fn any_relinks(events: Seq<WatchEvent>, entries: Seq<EntryView>, t: Target) -> bool {
    exists|i: int| 0 <= i < events.len() && #[trigger] relinks(events[i], entries, t)
}

/// Whether some event of a batch says that a watch of a file is gone.
pub open spec fn any_kills(events: Seq<WatchEvent>, entries: Seq<EntryView>, t: Target) -> bool {
    exists|i: int| 0 <= i < events.len() && #[trigger] kills(events[i], entries, t)
}

/// What the watcher does next.
#[derive(Debug, Clone, Copy, PartialEq, Eq, Structural)]
pub enum WatchAction {
    /// Watch the file from scratch: every watch of it is gone.
    Rewatch(Target),
    /// Resolve the file's symlink again.
    Reconcile(Target),
    /// Read the MIME rules again, and tell the engine if they really changed.
    ReloadRules,
    /// Report that the config file changed.
    ReportConfig,
}

/// An action, if it is due.
pub open spec fn due(now: bool, action: WatchAction) -> Seq<WatchAction> {
    if now {
        seq![action]
    } else {
        Seq::empty()
    }
}

/// What is done about a batch of events: watches that are gone come first, then symlinks,
/// and the rules are reloaded before a config change is reported, which may end the
/// process. A file whose watch was gone is read again, since what happened meanwhile was
/// missed.
pub open spec fn plan(
    events: Seq<WatchEvent>,
    entries: Seq<EntryView>,
    has_rules: bool,
) -> Seq<WatchAction> {
    let dead_config = any_kills(events, entries, Target::Config);
    let dead_rules = any_kills(events, entries, Target::Rules) && has_rules;
    due(dead_config, WatchAction::Rewatch(Target::Config)) + due(
        dead_rules,
        WatchAction::Rewatch(Target::Rules),
    ) + due(
        any_relinks(events, entries, Target::Config),
        WatchAction::Reconcile(Target::Config),
    ) + due(
        any_relinks(events, entries, Target::Rules) && has_rules,
        WatchAction::Reconcile(Target::Rules),
    ) + due(
        any_changes(events, entries, Target::Rules) || dead_rules,
        WatchAction::ReloadRules,
    ) + due(
        any_changes(events, entries, Target::Config) || dead_config,
        WatchAction::ReportConfig,
    )
}

/// A directory and whether creations in it are watched, beside writes.
pub type Mask = (Seq<char>, bool);

/// Whether creations are watched in a directory, if it is watched.
pub open spec fn mask_of(masks: Seq<Mask>, dir: Seq<char>) -> Option<bool>
    decreases masks.len(),
{
    if masks.len() == 0 {
        None
    } else if same_path(masks.last().0, dir) {
        Some(masks.last().1)
    } else {
        mask_of(masks.drop_last(), dir)
    }
}

/// What is to be watched in a directory after more was asked for: the union, since a
/// registration replaces the one before.
pub open spec fn merged(before: Option<bool>, create: bool) -> bool {
    create || before == Some(true)
}

/// What is watched, after more was asked for in a directory.
pub open spec fn with_mask(masks: Seq<Mask>, dir: Seq<char>, create: bool) -> Seq<Mask> {
    without_mask(masks, dir).push((dir, merged(mask_of(masks, dir), create)))
}

/// The watched files and the watches that are registered for them.
pub struct Watcher {
    config_path: String,
    rules_path: Option<String>,
    entries: Vec<Entry>,
    masks: Vec<(String, bool)>,
}

/// A watch on a symlink's target that is to be registered.
pub struct Pending {
    target: Target,
    path: String,
    replaced: Option<Entry>,
}

impl Pending {
    /// The file whose symlink it is.
    pub closed spec fn target(&self) -> Target {
        self.target
    }

    /// The path to watch.
    pub closed spec fn path(&self) -> Seq<char> {
        self.path@
    }

    /// The watch that it replaces.
    pub closed spec fn replaced(&self) -> Option<EntryView> {
        match self.replaced {
            Some(e) => Some(e@),
            None => None,
        }
    }
}

/// What reconciling a symlink's target asks for.
pub enum Reconcile {
    /// The registered watch is the right one.
    Settled,
    /// Nothing is to be watched; a watch that is not needed any more is to be removed.
    Unwatch(Option<i32>),
    /// This directory is to be watched, with or without creations; the outcome goes to
    /// [`Watcher::target_watched`].
    Watch { dir: String, create: bool, pending: Pending },
}

/// The place of the first watch of a file at a site.
pub open spec fn entry_at(entries: Seq<EntryView>, t: Target, s: Site) -> Option<int>
    decreases entries.len(),
{
    if entries.len() == 0 {
        None
    } else {
        match entry_at(entries.drop_last(), t, s) {
            Some(i) => Some(i),
            None => if entries.last().target == t && entries.last().site == s {
                Some(entries.len() - 1)
            } else {
                None
            },
        }
    }
}

/// The path of the watch of a file at its symlink's target.
pub open spec fn target_path(entries: Seq<EntryView>, t: Target) -> Option<Seq<char>> {
    match entry_at(entries, t, Site::Target) {
        Some(i) => Some(entries[i].path),
        None => None,
    }
}

/// Whether the watched path, if any, is the one to be watched, if any.
pub open spec fn same_target(watched: Option<Seq<char>>, wanted: Option<Seq<char>>) -> bool {
    match (watched, wanted) {
        (Some(a), Some(b)) => same_path(a, b),
        (None, None) => true,
        _ => false,
    }
}

/// The watches without those of a file.
pub open spec fn without_target(entries: Seq<EntryView>, t: Target) -> Seq<EntryView>
    decreases entries.len(),
{
    if entries.len() == 0 {
        Seq::empty()
    } else if entries.last().target == t {
        without_target(entries.drop_last(), t)
    } else {
        without_target(entries.drop_last(), t).push(entries.last())
    }
}

/// Whether some watch has this descriptor.
pub open spec fn in_use(entries: Seq<EntryView>, wd: i32) -> bool {
    exists|j: int| 0 <= j < entries.len() && (#[trigger] entries[j]).wd == wd
}

/// The descriptor to be removed after a watch was replaced: unless another watch uses it.
pub open spec fn stale(entries: Seq<EntryView>, old: Option<EntryView>) -> Option<i32> {
    match old {
        Some(e) => if in_use(entries, e.wd) {
            None
        } else {
            Some(e.wd)
        },
        None => None,
    }
}

/// What is watched after a watch was replaced: where its descriptor is to be removed, what
/// was watched in its directory is forgotten.
pub open spec fn masks_left(
    masks: Seq<Mask>,
    entries: Seq<EntryView>,
    old: Option<EntryView>,
) -> Seq<Mask> {
    match old {
        Some(e) => if in_use(entries, e.wd) {
            masks
        } else {
            without_mask(masks, dir_of(std_parent(e.path)))
        },
        None => masks,
    }
}

proof fn lemma_entry_at(entries: Seq<EntryView>, t: Target, s: Site)
    ensures
        match entry_at(entries, t, s) {
            Some(i) => {
                &&& 0 <= i < entries.len()
                &&& entries[i].target == t
                &&& entries[i].site == s
                &&& forall|k: int|
                    0 <= k < i ==> !((#[trigger] entries[k]).target == t && entries[k].site == s)
            },
            None => forall|k: int|
                0 <= k < entries.len() ==> !((#[trigger] entries[k]).target == t && entries[k].site
                    == s),
        },
    decreases entries.len(),
{
    if entries.len() > 0 {
        let rest = entries.drop_last();
        lemma_entry_at(rest, t, s);
        assert forall|k: int| 0 <= k < rest.len() implies rest[k] == entries[k] by {}
        match entry_at(rest, t, s) {
            Some(i) => {
                assert forall|k: int| 0 <= k < i implies !((#[trigger] entries[k]).target == t
                    && entries[k].site == s) by {
                    assert(!(rest[k].target == t && rest[k].site == s));
                }
            },
            None => {
                assert forall|k: int| 0 <= k < rest.len() implies !((#[trigger] entries[k]).target
                    == t && entries[k].site == s) by {
                    assert(!(rest[k].target == t && rest[k].site == s));
                }
            },
        }
    }
}

impl Watcher {
    /// The path of a watched file: there may be no rules file.
    pub closed spec fn path(&self, t: Target) -> Option<Seq<char>> {
        match t {
            Target::Config => Some(self.config_path@),
            Target::Rules => match self.rules_path {
                Some(p) => Some(p@),
                None => None,
            },
        }
    }

    /// The registered watches.
    pub closed spec fn entries(&self) -> Seq<EntryView> {
        entries_of(self.entries@)
    }

    /// What is watched in each directory.
    pub closed spec fn masks(&self) -> Seq<Mask> {
        masks_of(self.masks@)
    }

    /// Whether the files are those of `other`.
    pub open spec fn same_files(&self, other: Watcher) -> bool {
        forall|t: Target| (#[trigger] self.path(t)) == other.path(t)
    }

    /// Nothing is watched yet.
    pub fn new(config_path: String, rules_path: Option<String>) -> (r: Watcher)
        ensures
            r.path(Target::Config) == Some(config_path@),
            r.path(Target::Rules) == (match rules_path {
                Some(p) => Some(p@),
                None => None,
            }),
            r.entries() == Seq::<EntryView>::empty(),
            r.masks() == Seq::<Mask>::empty(),
    {
        let r = Watcher { config_path, rules_path, entries: Vec::new(), masks: Vec::new() };
        proof {
            assert(r.entries() =~= Seq::<EntryView>::empty());
            assert(r.masks() =~= Seq::<Mask>::empty());
        }
        r
    }

    /// The path of a watched file.
    pub fn path_of(&self, target: Target) -> (r: Option<&str>)
        ensures
            match r {
                Some(p) => self.path(target) == Some(p@),
                None => self.path(target) is None,
            },
    {
        match target {
            Target::Config => Some(self.config_path.as_str()),
            Target::Rules => match &self.rules_path {
                Some(p) => Some(p.as_str()),
                None => None,
            },
        }
    }

    fn drop_mask(&mut self, dir: &str)
        ensures
            final(self).masks() == without_mask(old(self).masks(), dir@),
            final(self).entries() == old(self).entries(),
            final(self).same_files(*old(self)),
    {
        let mut kept: Vec<(String, bool)> = Vec::new();
        let ghost all = self.masks();
        let mut i: usize = 0;
        proof {
            assert(all.take(0) =~= Seq::<Mask>::empty());
            assert(masks_of(kept@) =~= Seq::<Mask>::empty());
        }
        while i < self.masks.len()
            invariant
                i <= self.masks@.len(),
                *self == *old(self),
                all == self.masks(),
                masks_of(kept@) == without_mask(all.take(i as int), dir@),
            decreases self.masks@.len() - i,
        {
            let ghost was = masks_of(kept@);
            proof {
                assert(all.take(i + 1).drop_last() =~= all.take(i as int));
                assert(all.take(i + 1).last() == all[i as int]);
            }
            if !paths_match(self.masks[i].0.as_str(), dir) {
                kept.push((self.masks[i].0.clone(), self.masks[i].1));
                proof {
                    assert(masks_of(kept@) =~= was.push(all[i as int]));
                }
            }
            i += 1;
        }
        proof {
            assert(all.take(all.len() as int) =~= all);
        }
        self.masks = kept;
    }

    /// What is to be watched in a directory when more is asked for: every mask that was
    /// requested for it, since a registration replaces the one before.
    pub fn ensure_watch(&mut self, dir: &str, create: bool) -> (r: bool)
        ensures
            r == merged(mask_of(old(self).masks(), dir@), create),
            final(self).masks() == with_mask(old(self).masks(), dir@, create),
            final(self).entries() == old(self).entries(),
            final(self).same_files(*old(self)),
    {
        let ghost all = self.masks();
        let mut i: usize = self.masks.len();
        proof {
            assert(all.take(i as int) =~= all);
        }
        let mut before: Option<bool> = None;
        while i > 0 && before.is_none()
            invariant
                i <= self.masks@.len(),
                *self == *old(self),
                all == self.masks(),
                before is None ==> mask_of(all, dir@) == mask_of(all.take(i as int), dir@),
                before is Some ==> mask_of(all, dir@) == before,
            decreases i,
        {
            proof {
                assert(all.take(i as int).drop_last() =~= all.take(i - 1));
                assert(all.take(i as int).last() == all[i - 1]);
            }
            if paths_match(self.masks[i - 1].0.as_str(), dir) {
                before = Some(self.masks[i - 1].1);
            }
            i = i - 1;
        }
        let r = create || (match before {
            Some(b) => b,
            None => false,
        });
        self.drop_mask(dir);
        let ghost dropped = *self;
        self.masks.push((dir.to_string(), r));
        proof {
            assert(self.masks() =~= dropped.masks().push((dir@, r)));
            assert forall|t: Target| (#[trigger] self.path(t)) == dropped.path(t) by {}
        }
        r
    }

    /// The watch to register at a file's own path: its directory, with creations, which
    /// notice a symlink that was made in place.
    pub fn link_watch(&mut self, target: Target) -> (r: Option<(String, bool)>)
        ensures
            match (old(self).path(target), r) {
                (Some(path), Some((dir, create))) => {
                    &&& dir@ == dir_of(std_parent(path))
                    &&& create
                    &&& final(self).masks() == with_mask(old(self).masks(), dir@, true)
                },
                (None, None) => final(self).masks() == old(self).masks(),
                _ => false,
            },
            final(self).entries() == old(self).entries(),
            final(self).same_files(*old(self)),
    {
        let dir = match self.path_of(target) {
            Some(path) => parent_dir(path),
            None => {
                return None;
            },
        };
        let create = self.ensure_watch(dir.as_str(), true);
        Some((dir, create))
    }

    /// Takes the descriptor of the watch at a file's own path.
    pub fn link_watched(&mut self, target: Target, wd: i32)
        ensures
            final(self).entries() == (match old(self).path(target) {
                Some(path) => old(self).entries().push(
                    (EntryView { target, site: Site::Link, path, wd }),
                ),
                None => old(self).entries(),
            }),
            final(self).masks() == old(self).masks(),
            final(self).same_files(*old(self)),
    {
        let ghost was = self.entries();
        let path = match self.path_of(target) {
            Some(path) => path.to_string(),
            None => {
                return;
            },
        };
        let entry = Entry { target, site: Site::Link, path, wd };
        let ghost v = entry@;
        self.entries.push(entry);
        proof {
            assert(self.entries() =~= was.push(v));
        }
    }

    /// Drops the watches of a file, all of which are gone.
    pub fn forget(&mut self, target: Target)
        ensures
            final(self).entries() == without_target(old(self).entries(), target),
            final(self).masks() == old(self).masks(),
            final(self).same_files(*old(self)),
    {
        let mut kept: Vec<Entry> = Vec::new();
        let ghost all = self.entries();
        let mut i: usize = 0;
        proof {
            assert(all.take(0) =~= Seq::<EntryView>::empty());
            assert(entries_of(kept@) =~= Seq::<EntryView>::empty());
        }
        while i < self.entries.len()
            invariant
                i <= self.entries@.len(),
                *self == *old(self),
                all == self.entries(),
                entries_of(kept@) == without_target(all.take(i as int), target),
            decreases self.entries@.len() - i,
        {
            let ghost was = entries_of(kept@);
            proof {
                assert(all.take(i + 1).drop_last() =~= all.take(i as int));
                assert(all.take(i + 1).last() == self.entries@[i as int]@);
            }
            let e = &self.entries[i];
            if e.target != target {
                kept.push(copy_entry(e));
                proof {
                    assert(entries_of(kept@) =~= was.push(e@));
                }
            }
            i += 1;
        }
        proof {
            assert(all.take(all.len() as int) =~= all);
        }
        self.entries = kept;
    }

    fn uses(&self, wd: i32) -> (r: bool)
        ensures
            r == in_use(self.entries(), wd),
    {
        let mut i: usize = 0;
        while i < self.entries.len()
            invariant
                i <= self.entries@.len(),
                forall|k: int| 0 <= k < i ==> (#[trigger] self.entries@[k]).wd != wd,
            decreases self.entries@.len() - i,
        {
            if self.entries[i].wd == wd {
                proof {
                    assert(self.entries()[i as int].wd == wd);
                }
                return true;
            }
            i += 1;
        }
        proof {
            if in_use(self.entries(), wd) {
                let j = choose|j: int|
                    0 <= j < self.entries().len() && (#[trigger] self.entries()[j]).wd == wd;
                assert(self.entries@[j].wd != wd);
            }
        }
        false
    }

    /// The descriptor to remove after a watch was replaced. What was watched in its
    /// directory is forgotten with it, so that the record does not grow as a symlink is
    /// repointed.
    fn retire(&mut self, old_entry: Option<Entry>) -> (r: Option<i32>)
        ensures
            ({
                let replaced = match old_entry {
                    Some(e) => Some(e@),
                    None => None,
                };
                &&& r == stale(old(self).entries(), replaced)
                &&& final(self).masks() == masks_left(
                    old(self).masks(),
                    old(self).entries(),
                    replaced,
                )
            }),
            final(self).entries() == old(self).entries(),
            final(self).same_files(*old(self)),
    {
        let e = match old_entry {
            Some(e) => e,
            None => {
                return None;
            },
        };
        if self.uses(e.wd) {
            return None;
        }
        let dir = parent_dir(e.path.as_str());
        self.drop_mask(dir.as_str());
        Some(e.wd)
    }

    fn find_target(&self, target: Target) -> (r: Option<usize>)
        ensures
            match r {
                Some(i) => entry_at(self.entries(), target, Site::Target) == Some(i as int) && i
                    < self.entries@.len(),
                None => entry_at(self.entries(), target, Site::Target) is None,
            },
    {
        let ghost all = self.entries();
        let mut i: usize = 0;
        proof {
            assert(all.take(0) =~= Seq::<EntryView>::empty());
        }
        while i < self.entries.len()
            invariant
                i <= self.entries@.len(),
                all == self.entries(),
                forall|k: int|
                    0 <= k < i ==> !((#[trigger] all[k]).target == target && all[k].site
                        == Site::Target),
            decreases self.entries@.len() - i,
        {
            assert(all[i as int] == self.entries@[i as int]@);
            if self.entries[i].target == target && self.entries[i].site == Site::Target {
                proof {
                    lemma_entry_at(all, target, Site::Target);
                    let at = entry_at(all, target, Site::Target);
                    if at is Some && at->0 < i {
                        assert(!(all[at->0].target == target && all[at->0].site == Site::Target));
                    }
                }
                return Some(i);
            }
            i += 1;
        }
        proof {
            lemma_entry_at(all, target, Site::Target);
        }
        None
    }

    /// Makes the watch at a file's symlink target match what the symlink resolves to: the
    /// watch of the old target is dropped and one of the new is asked for. Nothing is done
    /// when it is the watched one already.
    pub fn reconcile_target(&mut self, target: Target, site: TargetSite) -> (r: Reconcile)
        ensures
            final(self).same_files(*old(self)),
            ({
                let before = old(self).entries();
                let at = entry_at(before, target, Site::Target);
                let dropped = match at {
                    Some(i) => Some(before[i]),
                    None => None,
                };
                let left = match at {
                    Some(i) => before.remove(i),
                    None => before,
                };
                if same_target(target_path(before, target), desired(site)) {
                    r is Settled && *final(self) == *old(self)
                } else {
                    &&& final(self).entries() == left
                    &&& match desired(site) {
                        None => {
                            &&& r == Reconcile::Unwatch(stale(left, dropped))
                            &&& final(self).masks() == masks_left(
                                old(self).masks(),
                                left,
                                dropped,
                            )
                        },
                        Some(path) => {
                            &&& r matches Reconcile::Watch { dir, create, pending }
                            &&& dir@ == dir_of(std_parent(path))
                            &&& create == merged(mask_of(old(self).masks(), dir@), false)
                            &&& final(self).masks() == with_mask(old(self).masks(), dir@, false)
                            &&& pending.target() == target
                            &&& pending.path() == path
                            &&& pending.replaced() == dropped
                        },
                    }
                }
            }),
    {
        let ghost before = self.entries();
        let found = self.find_target(target);
        proof {
            lemma_entry_at(before, target, Site::Target);
        }
        let path = match site {
            TargetSite::Watch(path) => Some(path),
            _ => None,
        };
        let settled = match (found, &path) {
            (Some(i), Some(p)) => paths_match(self.entries[i].path.as_str(), p.as_str()),
            (None, None) => true,
            _ => false,
        };
        if settled {
            return Reconcile::Settled;
        }
        let dropped = match found {
            Some(i) => {
                let e = self.entries.remove(i);
                proof {
                    assert(self.entries() =~= before.remove(i as int));
                }
                Some(e)
            },
            None => None,
        };
        match path {
            None => Reconcile::Unwatch(self.retire(dropped)),
            Some(path) => {
                let dir = parent_dir(path.as_str());
                let create = self.ensure_watch(dir.as_str(), false);
                Reconcile::Watch { dir, create, pending: Pending { target, path, replaced: dropped } }
            },
        }
    }

    /// Takes the descriptor of the watch that reconciling asked for, or that it could not be
    /// registered. Returns a descriptor that is to be removed.
    pub fn target_watched(&mut self, pending: Pending, wd: Option<i32>) -> (r: Option<i32>)
        ensures
            final(self).same_files(*old(self)),
            final(self).entries() == (match wd {
                Some(wd) => old(self).entries().push(
                    (EntryView {
                        target: pending.target(),
                        site: Site::Target,
                        path: pending.path(),
                        wd,
                    }),
                ),
                None => old(self).entries(),
            }),
            final(self).masks() == masks_left(
                old(self).masks(),
                final(self).entries(),
                pending.replaced(),
            ),
            r == stale(final(self).entries(), pending.replaced()),
    {
        let ghost was = self.entries();
        if let Some(wd) = wd {
            let entry = Entry {
                target: pending.target,
                site: Site::Target,
                path: pending.path,
                wd,
            };
            let ghost v = entry@;
            self.entries.push(entry);
            proof {
                assert(self.entries() =~= was.push(v));
            }
        }
        self.retire(pending.replaced)
    }

    fn note(&self, event: &WatchEvent, batch: &mut Batch)
        ensures
            forall|t: Target|
                (#[trigger] final(batch).changed.at(t)) == (old(batch).changed.at(t) || changes(
                    *event,
                    self.entries(),
                    t,
                )),
            forall|t: Target|
                (#[trigger] final(batch).reresolve.at(t)) == (old(batch).reresolve.at(t)
                    || relinks(*event, self.entries(), t)),
            forall|t: Target|
                (#[trigger] final(batch).dead.at(t)) == (old(batch).dead.at(t) || kills(
                    *event,
                    self.entries(),
                    t,
                )),
    {
        let ghost all = self.entries();
        let ghost start = *batch;
        if let WatchEvent::Overflow = event {
            batch.changed = PerTarget { config: true, rules: true };
            batch.reresolve = PerTarget { config: true, rules: true };
            return;
        }
        let act = match event {
            WatchEvent::Named { wrote, created, link, .. } => *wrote || (*created && *link),
            _ => false,
        };
        let mut i: usize = 0;
        while i < self.entries.len()
            invariant
                i <= self.entries@.len(),
                all == self.entries(),
                act == acts(*event),
                !(event is Overflow),
                forall|t: Target|
                    (#[trigger] batch.changed.at(t)) == (start.changed.at(t) || exists|j: int|
                        0 <= j < i && acts_on(*event, #[trigger] all[j]) && all[j].target == t),
                forall|t: Target|
                    (#[trigger] batch.reresolve.at(t)) == (start.reresolve.at(t) || exists|j: int|
                        0 <= j < i && acts_on(*event, #[trigger] all[j]) && all[j].target == t
                            && all[j].site == Site::Link),
                forall|t: Target|
                    (#[trigger] batch.dead.at(t)) == (start.dead.at(t) || exists|j: int|
                        0 <= j < i && (#[trigger] all[j]).target == t && *event == (
                        WatchEvent::Ignored { wd: all[j].wd })),
            decreases self.entries@.len() - i,
        {
            let entry = &self.entries[i];
            let ghost v = entry@;
            assert(all[i as int] == v);
            match event {
                WatchEvent::Ignored { wd } => {
                    if entry.wd == *wd {
                        batch.dead.set(entry.target);
                    }
                },
                WatchEvent::Named { wd, name, .. } => {
                    if act && entry.matches(*wd, name.as_str()) {
                        batch.changed.set(entry.target);
                        if entry.site == Site::Link {
                            batch.reresolve.set(entry.target);
                        }
                    }
                },
                _ => {},
            }
            i += 1;
        }
    }

    /// What a batch of events says of each file.
    pub fn batch(&self, events: &[WatchEvent]) -> (r: Batch)
        ensures
            forall|t: Target|
                (#[trigger] r.changed.at(t)) == any_changes(events@, self.entries(), t),
            forall|t: Target|
                (#[trigger] r.reresolve.at(t)) == any_relinks(events@, self.entries(), t),
            forall|t: Target| (#[trigger] r.dead.at(t)) == any_kills(events@, self.entries(), t),
    {
        let ghost all = self.entries();
        let mut r = Batch {
            changed: PerTarget::none(),
            reresolve: PerTarget::none(),
            dead: PerTarget::none(),
        };
        let mut i: usize = 0;
        while i < events.len()
            invariant
                i <= events@.len(),
                all == self.entries(),
                forall|t: Target|
                    (#[trigger] r.changed.at(t)) == exists|k: int|
                        0 <= k < i && #[trigger] changes(events@[k], all, t),
                forall|t: Target|
                    (#[trigger] r.reresolve.at(t)) == exists|k: int|
                        0 <= k < i && #[trigger] relinks(events@[k], all, t),
                forall|t: Target|
                    (#[trigger] r.dead.at(t)) == exists|k: int|
                        0 <= k < i && #[trigger] kills(events@[k], all, t),
            decreases events@.len() - i,
        {
            let ghost before = r;
            self.note(&events[i], &mut r);
            proof {
                let e = events@[i as int];
                assert forall|t: Target|
                    (#[trigger] r.changed.at(t)) == exists|k: int|
                        0 <= k < i + 1 && #[trigger] changes(events@[k], all, t) by {
                    assert(r.changed.at(t) == (before.changed.at(t) || changes(e, all, t)));
                }
                assert forall|t: Target|
                    (#[trigger] r.reresolve.at(t)) == exists|k: int|
                        0 <= k < i + 1 && #[trigger] relinks(events@[k], all, t) by {
                    assert(r.reresolve.at(t) == (before.reresolve.at(t) || relinks(e, all, t)));
                }
                assert forall|t: Target|
                    (#[trigger] r.dead.at(t)) == exists|k: int|
                        0 <= k < i + 1 && #[trigger] kills(events@[k], all, t) by {
                    assert(r.dead.at(t) == (before.dead.at(t) || kills(e, all, t)));
                }
            }
            i += 1;
        }
        r
    }

    /// What is done about a batch of events, in order.
    pub fn run(&self, events: &[WatchEvent]) -> (r: Vec<WatchAction>)
        ensures
            r@ == plan(events@, self.entries(), self.path(Target::Rules) is Some),
    {
        let b = self.batch(events);
        let has_rules = self.path_of(Target::Rules).is_some();
        let dead_config = b.dead.get(Target::Config);
        let dead_rules = b.dead.get(Target::Rules) && has_rules;
        let mut r: Vec<WatchAction> = Vec::new();
        if dead_config {
            r.push(WatchAction::Rewatch(Target::Config));
        }
        if dead_rules {
            r.push(WatchAction::Rewatch(Target::Rules));
        }
        if b.reresolve.get(Target::Config) {
            r.push(WatchAction::Reconcile(Target::Config));
        }
        if b.reresolve.get(Target::Rules) && has_rules {
            r.push(WatchAction::Reconcile(Target::Rules));
        }
        if b.changed.get(Target::Rules) || dead_rules {
            r.push(WatchAction::ReloadRules);
        }
        if b.changed.get(Target::Config) || dead_config {
            r.push(WatchAction::ReportConfig);
        }
        assert(r@ =~= plan(events@, self.entries(), self.path(Target::Rules) is Some));
        r
    }
}

/// What is watched in some directories.
pub open spec fn masks_of(masks: Seq<(String, bool)>) -> Seq<Mask> {
    masks.map_values(|m: (String, bool)| (m.0@, m.1))
}

/// What is watched, without a directory.
pub open spec fn without_mask(masks: Seq<Mask>, dir: Seq<char>) -> Seq<Mask>
    decreases masks.len(),
{
    if masks.len() == 0 {
        Seq::empty()
    } else if same_path(masks.last().0, dir) {
        without_mask(masks.drop_last(), dir)
    } else {
        without_mask(masks.drop_last(), dir).push(masks.last())
    }
}

fn copy_entry(e: &Entry) -> (r: Entry)
    ensures
        r@ == e@,
{
    Entry { target: e.target, site: e.site, path: e.path.clone(), wd: e.wd }
}

/// What is asked for in a directory is watched there from then on, however its path is
/// spelled, beside what was watched before; and nothing changes in any other directory.
pub proof fn watching_more_only_adds(masks: Seq<Mask>, dir: Seq<char>, create: bool, other: Seq<char>)
    ensures
        mask_of(with_mask(masks, dir, create), dir) matches Some(now) && (create ==> now) && (
        mask_of(masks, dir) == Some(true) ==> now),
        same_path(dir, other) ==> mask_of(with_mask(masks, dir, create), other) == mask_of(
            with_mask(masks, dir, create),
            dir,
        ),
        !same_path(dir, other) ==> mask_of(with_mask(masks, dir, create), other) == mask_of(
            masks,
            other,
        ),
{
    let now = with_mask(masks, dir, create);
    assert(now.drop_last() =~= without_mask(masks, dir));
    if !same_path(dir, other) {
        lemma_without_mask(masks, dir, other);
    }
}

proof fn lemma_without_mask(masks: Seq<Mask>, dir: Seq<char>, other: Seq<char>)
    requires
        !same_path(dir, other),
    ensures
        mask_of(without_mask(masks, dir), other) == mask_of(masks, other),
    decreases masks.len(),
{
    if masks.len() > 0 {
        lemma_without_mask(masks.drop_last(), dir, other);
        let rest = without_mask(masks.drop_last(), dir);
        assert(rest.push(masks.last()).drop_last() =~= rest);
    }
}

/// After a symlink's target was watched, reconciling the same target again is settled:
/// the watch is the one that was asked for.
pub proof fn reconciling_twice_is_settled(
    entries: Seq<EntryView>,
    target: Target,
    path: Seq<char>,
    wd: i32,
)
    requires
        entry_at(entries, target, Site::Target) is None,
    ensures
        same_target(
            target_path(
                entries.push((EntryView { target, site: Site::Target, path, wd })),
                target,
            ),
            Some(path),
        ),
{
    let now = entries.push((EntryView { target, site: Site::Target, path, wd }));
    assert(now.drop_last() =~= entries);
}

/// A lost event changes nothing for good: when the kernel drops events, both files are
/// read and resolved again.
pub proof fn an_overflow_checks_everything(
    events: Seq<WatchEvent>,
    entries: Seq<EntryView>,
    i: int,
    t: Target,
)
    requires
        0 <= i < events.len(),
        events[i] is Overflow,
    ensures
        any_changes(events, entries, t),
        any_relinks(events, entries, t),
{
    assert(changes(events[i], entries, t));
    assert(relinks(events[i], entries, t));
}

/// A bare creation of a regular file drives no read: its contents are not written yet.
pub proof fn a_bare_creation_is_not_read(
    wd: i32,
    name: String,
    entries: Seq<EntryView>,
    t: Target,
)
    ensures
        !changes(
            WatchEvent::Named { wd, name, wrote: false, created: true, link: false },
            entries,
            t,
        ),
{
}

} // verus!
