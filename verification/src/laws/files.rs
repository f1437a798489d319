//! Files: where paths and links lead, how a file is replaced, and what is done when one changes.

use crate::fsutil::{chain_end, dir_of, dir_or_dot, join_path, link_leads_to};
use crate::fsutil::{chain_read, link_read, resolve_link_target};
use crate::fsutil::{next_link, parent_dir, same_path, std_file_name, std_parent, temp_name};
use crate::fsutil::{write_atomic, LinkWalk, Replacement};
use crate::fswatch::{DirState, EntryView, Reconcile, Site, Target, TargetSite};
use crate::fswatch::{WatchAction, WatchEvent, Watcher};
use crate::fswatch::{any_changes, any_kills, any_relinks, changes, desired, entry_at, in_use, kills};
use crate::fswatch::{masks_left, with_mask, without_mask, Mask};
use crate::fswatch::{plan, relinks, same_target, stale, target_path, target_site, without_target};
use crate::fswatch::mask_of;
use crate::text::{has_prefix, has_suffix, opt_text};
use vstd::prelude::*;

verus! {

/// A path that starts at the root stays as it is; any other is taken from the directory, with
/// one slash between them.
pub proof fn a_relative_path_is_taken_from_the_directory(base: &str, path: &str, r: String)
    requires
        call_ensures(join_path, (base, path), r),
    ensures
        path@.len() > 0 && path@[0] == '/' ==> r@ == path@,
        (path@.len() == 0 || path@[0] != '/') && base@.len() > 0 && base@.last() != '/' ==> r@
            == base@ + seq!['/'] + path@,
        (path@.len() == 0 || path@[0] != '/') && (base@.len() == 0 || base@.last() == '/') ==> r@
            == base@ + path@,
{
    reveal_strlit("/");
    assert("/"@ =~= seq!['/']);
}

/// A path has a directory: that of its parent, and the current one where that is empty or
/// there is none.
pub proof fn every_path_has_a_directory(path: &str, r: String, p: Option<String>, d: String)
    requires
        call_ensures(parent_dir, (path,), r),
        call_ensures(dir_or_dot, (p,), d),
    ensures
        r@.len() > 0,
        std_parent(path@) matches Some(x) ==> (x.len() > 0 ==> r@ == x),
        std_parent(path@) is None || std_parent(path@)->0.len() == 0 ==> r@ == seq!['.'],
        p matches Some(x) ==> (x@.len() > 0 ==> d@ == x@),
        p is None || p->0@.len() == 0 ==> d@ == seq!['.'],
{
    reveal_strlit(".");
    assert("."@ =~= seq!['.']);
}

/// A link leads to the path that it names, taken from the directory in which it stands.
pub proof fn a_link_leads_from_its_directory(
    parent: Option<String>,
    target: String,
    r: String,
)
    requires
        call_ensures(next_link, (parent, target), r),
    ensures
        target@.len() > 0 && target@[0] == '/' ==> r@ == target@,
        (target@.len() == 0 || target@[0] != '/') && (parent matches Some(p) && p@.len() > 0
            && p@.last() != '/') ==> r@ == parent->0@ + seq!['/'] + target@,
        (target@.len() == 0 || target@[0] != '/') && parent is None ==> r@ == seq!['.', '/']
            + target@,
{
    reveal_strlit("/");
    reveal_strlit(".");
    assert("/"@ =~= seq!['/']);
    if parent is None && (target@.len() == 0 || target@[0] != '/') {
        assert(r@ =~= seq!['.', '/'] + target@);
    }
}

/// A walk along links starts at its path and goes on, link by link, from where it is; it ends
/// where something is no link, and after so many of them.
pub proof fn a_walk_goes_link_by_link(
    path: &str,
    w: LinkWalk,
    v: &mut LinkWalk,
    link: Option<String>,
    more: bool,
)
    requires
        call_ensures(LinkWalk::new, (path,), w),
        call_ensures(LinkWalk::follow, (v, link), more),
    ensures
        chain_end(w.start(), w.links()) == path@,
        link is None ==> !more && final(v).links() == old(v).links(),
        link matches Some(t) ==> chain_end(final(v).start(), final(v).links()) == link_leads_to(
            std_parent(chain_end(old(v).start(), old(v).links())),
            t@,
        ),
        more <==> link is Some && old(v).links().len() + 1 < crate::fsutil::MAX_HOPS,
{
    if let Some(t) = link {
        assert(old(v).links().push(t@).drop_last() =~= old(v).links());
    }
}

/// A file is replaced by one beside it, under a hidden name of its own; but not through a chain
/// of links that does not end.
pub proof fn a_file_is_replaced_from_beside_it(
    path: &str,
    target: &str,
    is_link: bool,
    r: Result<Replacement, String>,
)
    requires
        call_ensures(write_atomic, (path, target, is_link), r),
    ensures
        r is Err <==> is_link,
        r matches Ok(plan) ==> {
            &&& plan.target@ == target@
            &&& std_file_name(target@) matches Some(n) ==> {
                &&& has_suffix(plan.temp@, seq!['.'] + n + ".tmp"@)
                &&& plan.temp@ == dir_of(std_parent(target@)) + "/"@ + seq!['.'] + n + ".tmp"@
                    || plan.temp@ == dir_of(std_parent(target@)) + seq!['.'] + n + ".tmp"@
            }
        },
        r matches Err(e) ==> has_prefix(e@, path@),
{
    reveal_strlit(".");
    reveal_strlit("/");
    assert("."@ =~= seq!['.']);
    if let Ok(plan) = r {
        if let Some(n) = std_file_name(target@) {
            let d = dir_of(std_parent(target@));
            let name = seq!['.'] + n + ".tmp"@;
            assert(temp_name(Some(n)) =~= name);
            assert(name[0] == '.');
            if d.len() == 0 || d.last() == '/' {
                assert(plan.temp@ =~= d + seq!['.'] + n + ".tmp"@);
            } else {
                assert(plan.temp@ =~= d + "/"@ + seq!['.'] + n + ".tmp"@);
            }
            assert(plan.temp@.skip(plan.temp@.len() - name.len()) =~= name);
        }
    }
    if let Err(e) = r {
        assert(e@.take(path@.len() as int) =~= path@);
    }
}

/// A file counts as changed when it was written, or created as a link, in a directory that is
/// watched for it under its name; or when events were lost. Nothing else changes it.
pub proof fn a_write_under_its_name_changes_a_file(
    wd: i32,
    name: String,
    wrote: bool,
    created: bool,
    link: bool,
    entries: Seq<EntryView>,
    j: int,
    t: Target,
)
    requires
        0 <= j < entries.len(),
    ensures
        ({
            let e = WatchEvent::Named { wd, name, wrote, created, link };
            &&& entries[j].wd == wd && std_file_name(entries[j].path) == Some(name@) && (wrote || (
            created && link)) ==> changes(e, entries, entries[j].target)
            &&& entries[j].wd == wd && std_file_name(entries[j].path) == Some(name@) && (wrote || (
            created && link)) && entries[j].site == Site::Link ==> relinks(
                e,
                entries,
                entries[j].target,
            )
            &&& !wrote && !(created && link) ==> !changes(e, entries, t) && !relinks(e, entries, t)
            &&& (forall|k: int|
                0 <= k < entries.len() && (#[trigger] entries[k]).target == t ==> entries[k].wd != wd
                    || std_file_name(entries[k].path) != Some(name@)) ==> !changes(e, entries, t)
            &&& !kills(e, entries, t)
        }),
        !changes(WatchEvent::Other, entries, t),
        !changes(WatchEvent::Ignored { wd }, entries, t),
        changes(WatchEvent::Overflow, entries, t),
        relinks(WatchEvent::Overflow, entries, t),
        kills(WatchEvent::Ignored { wd: entries[j].wd }, entries, entries[j].target),
        (forall|k: int|
            0 <= k < entries.len() && (#[trigger] entries[k]).target == t ==> entries[k].wd != wd)
            ==> !kills(WatchEvent::Ignored { wd }, entries, t),
{
    let e = WatchEvent::Named { wd, name, wrote, created, link };
    if entries[j].wd == wd && std_file_name(entries[j].path) == Some(name@) && (wrote || (created
        && link)) {
        assert(crate::fswatch::acts_on(e, entries[j]));
    }
    assert(entries[j].target == entries[j].target);
}

/// In which order things are done about a batch of events.
pub open spec fn rank(a: WatchAction) -> int {
    match a {
        WatchAction::Rewatch(Target::Config) => 0,
        WatchAction::Rewatch(Target::Rules) => 1,
        WatchAction::Reconcile(Target::Config) => 2,
        WatchAction::Reconcile(Target::Rules) => 3,
        WatchAction::ReloadRules => 4,
        WatchAction::ReportConfig => 5,
    }
}

/// What is done about a batch of events: a file that changed is read, one whose watch is gone is
/// watched and read again, a link that may lead elsewhere is resolved again; each once. Watches
/// come first, then links, then the rules, and the config, which may end the process, last.
pub proof fn every_change_is_seen_to(
    events: Seq<WatchEvent>,
    entries: Seq<EntryView>,
    has_rules: bool,
)
    ensures
        ({
            let p = plan(events, entries, has_rules);
            let (c, r) = (Target::Config, Target::Rules);
            &&& p.contains(WatchAction::Rewatch(c)) <==> any_kills(events, entries, c)
            &&& p.contains(WatchAction::Rewatch(r)) <==> any_kills(events, entries, r) && has_rules
            &&& p.contains(WatchAction::Reconcile(c)) <==> any_relinks(events, entries, c)
            &&& p.contains(WatchAction::Reconcile(r)) <==> any_relinks(events, entries, r)
                && has_rules
            &&& p.contains(WatchAction::ReloadRules) <==> any_changes(events, entries, r) || (
            any_kills(events, entries, r) && has_rules)
            &&& p.contains(WatchAction::ReportConfig) <==> any_changes(events, entries, c)
                || any_kills(events, entries, c)
            &&& forall|i: int, j: int|
                0 <= i < j < p.len() ==> rank(#[trigger] p[i]) < rank(#[trigger] p[j])
        }),
{
    let p = plan(events, entries, has_rules);
    let (c, r) = (Target::Config, Target::Rules);
    let dead_config = any_kills(events, entries, c);
    let dead_rules = any_kills(events, entries, r) && has_rules;
    let list = seq![
        (dead_config, WatchAction::Rewatch(c)),
        (dead_rules, WatchAction::Rewatch(r)),
        (any_relinks(events, entries, c), WatchAction::Reconcile(c)),
        (any_relinks(events, entries, r) && has_rules, WatchAction::Reconcile(r)),
        (any_changes(events, entries, r) || dead_rules, WatchAction::ReloadRules),
        (any_changes(events, entries, c) || dead_config, WatchAction::ReportConfig),
    ];
    lemma_due(list, 6);
    reveal_with_fuel(dues, 7);
    assert(p =~= dues(list, 6));
    assert(list[0].1 == WatchAction::Rewatch(c) && list[1].1 == WatchAction::Rewatch(r));
    assert(list[2].1 == WatchAction::Reconcile(c) && list[3].1 == WatchAction::Reconcile(r));
    assert(list[4].1 == WatchAction::ReloadRules && list[5].1 == WatchAction::ReportConfig);
    assert forall|a: WatchAction| #[trigger] p.contains(a) <==> list[rank(a)].0 by {
        if p.contains(a) {
            let i = choose|i: int| 0 <= i < p.len() && p[i] == a;
            assert(0 <= rank(p[i]) < 6);
        }
    }
}

/// Those of the first `n` actions that are due.
spec fn dues(list: Seq<(bool, WatchAction)>, n: nat) -> Seq<WatchAction>
    decreases n,
{
    if n == 0 {
        Seq::empty()
    } else {
        dues(list, (n - 1) as nat) + crate::fswatch::due(list[n - 1].0, list[n - 1].1)
    }
}

proof fn lemma_due(list: Seq<(bool, WatchAction)>, n: nat)
    requires
        n <= list.len(),
        forall|i: int| 0 <= i < list.len() ==> rank((#[trigger] list[i]).1) == i,
    ensures
        forall|i: int|
            0 <= i < dues(list, n).len() ==> {
                &&& 0 <= rank(#[trigger] dues(list, n)[i]) < n
                &&& list[rank(dues(list, n)[i])].0
                &&& list[rank(dues(list, n)[i])].1 == dues(list, n)[i]
            },
        forall|i: int, j: int|
            0 <= i < j < dues(list, n).len() ==> rank(#[trigger] dues(list, n)[i]) < rank(
                #[trigger] dues(list, n)[j],
            ),
        forall|k: int| 0 <= k < n && (#[trigger] list[k]).0 ==> dues(list, n).contains(list[k].1),
    decreases n,
{
    if n > 0 {
        let m = (n - 1) as nat;
        lemma_due(list, m);
        let (was, now) = (dues(list, m), dues(list, n));
        assert(rank(list[n - 1].1) == n - 1);
        assert forall|i: int| 0 <= i < now.len() implies {
            &&& 0 <= rank(#[trigger] now[i]) < n
            &&& list[rank(now[i])].0
            &&& list[rank(now[i])].1 == now[i]
        } by {
            if i < was.len() {
                assert(now[i] == was[i]);
            }
        }
        assert forall|i: int, j: int| 0 <= i < j < now.len() implies rank(#[trigger] now[i]) < rank(
            #[trigger] now[j],
        ) by {
            assert(now[i] == was[i]);
            if j < was.len() {
                assert(now[j] == was[j]);
            }
        }
        assert forall|k: int| 0 <= k < n && (#[trigger] list[k]).0 implies now.contains(
            list[k].1,
        ) by {
            if k < m {
                assert(was.contains(list[k].1));
                let i = choose|i: int| 0 <= i < was.len() && was[i] == list[k].1;
                assert(now[i] == list[k].1);
            } else {
                assert(now[was.len() as int] == list[k].1);
            }
        }
    }
}

/// Beside a link the file to which it leads is watched, if there is a directory for it; without
/// a link there is nothing to watch beside the file.
pub proof fn where_a_link_leads_is_watched(
    is_symlink: bool,
    resolved: String,
    dir: DirState,
    r: TargetSite,
)
    requires
        call_ensures(target_site, (is_symlink, resolved, dir), r),
    ensures
        desired(r) is Some <==> is_symlink && dir == DirState::Directory,
        desired(r) is Some ==> desired(r) == Some(resolved@),
        r is NotSymlink <==> !is_symlink,
{
}

/// A watch that is replaced is removed unless another one has the same descriptor.
pub proof fn a_descriptor_in_use_stays(entries: Seq<EntryView>, e: EntryView, j: int)
    ensures
        stale(entries, None) is None,
        0 <= j < entries.len() && entries[j].wd == e.wd ==> stale(entries, Some(e)) is None,
        (forall|k: int| 0 <= k < entries.len() ==> (#[trigger] entries[k]).wd != e.wd) ==> stale(
            entries,
            Some(e),
        ) == Some(e.wd),
{
    if 0 <= j < entries.len() && entries[j].wd == e.wd {
        assert(in_use(entries, e.wd));
    }
}

/// Forgetting a file takes its watches away and leaves those of the other in their order.
pub proof fn only_that_file_is_forgotten(
    a: Seq<EntryView>,
    e: EntryView,
    b: Seq<EntryView>,
    t: Target,
)
    ensures
        without_target(a + seq![e] + b, t) == without_target(a, t) + (if e.target == t {
            Seq::empty()
        } else {
            seq![e]
        }) + without_target(b, t),
        without_target(Seq::empty(), t).len() == 0,
    decreases b.len(),
{
    let all = a + seq![e] + b;
    let mid = if e.target == t {
        Seq::empty()
    } else {
        seq![e]
    };
    if b.len() == 0 {
        assert(all.drop_last() =~= a);
        assert(without_target(all, t) =~= without_target(a, t) + mid + without_target(b, t));
    } else {
        only_that_file_is_forgotten(a, e, b.drop_last(), t);
        assert(all.drop_last() =~= a + seq![e] + b.drop_last());
        assert(all.last() == b.last());
        assert(without_target(all, t) =~= without_target(a, t) + mid + without_target(b, t));
    }
}

/// A file is watched in its directory, under its own path, creations included.
pub proof fn a_file_is_watched_in_its_directory(
    a: &mut Watcher,
    target: Target,
    r: Option<(String, bool)>,
    b: &mut Watcher,
    wd: i32,
)
    requires
        call_ensures(Watcher::link_watch, (a, target), r),
        call_ensures(Watcher::link_watched, (b, target, wd), ()),
    ensures
        r is Some <==> old(a).path(target) is Some,
        r matches Some((dir, create)) ==> create && dir@ == dir_of(
            std_parent(old(a).path(target)->0),
        ),
        old(b).path(target) matches Some(path) ==> final(b).entries() == old(b).entries().push(
            (EntryView { target, site: Site::Link, path, wd }),
        ),
        old(b).path(target) is None ==> final(b).entries() == old(b).entries(),
{
}

/// A link that leads elsewhere is followed: the old target's watch is given up, the new target
/// is watched in its directory, and from then on the watch is the right one.
pub proof fn a_repointed_link_is_followed(
    a: &mut Watcher,
    target: Target,
    path: String,
    r: Reconcile,
    b: &mut Watcher,
    wd: i32,
    s: Option<i32>,
)
    requires
        call_ensures(Watcher::reconcile_target, (a, target, TargetSite::Watch(path)), r),
        !same_target(target_path(old(a).entries(), target), Some(path@)),
        *old(b) == *final(a),
        r matches Reconcile::Watch { dir, create, pending } && call_ensures(
            Watcher::target_watched,
            (b, pending, Some(wd)),
            s,
        ),
    ensures
        r matches Reconcile::Watch { dir, create, pending } && dir@ == dir_of(std_parent(path@)),
        final(b).entries().last() == (EntryView { target, site: Site::Target, path: path@, wd }),
        entry_at(old(a).entries(), target, Site::Target) is None ==> final(b).entries()
            == old(a).entries().push((EntryView { target, site: Site::Target, path: path@, wd })),
        entry_at(old(a).entries(), target, Site::Target) matches Some(i) ==> final(b).entries()
            == old(a).entries().remove(i).push(
            (EntryView { target, site: Site::Target, path: path@, wd }),
        ),
{
}

/// A file that is no link any more, or leads nowhere, has no target to watch; and one whose
/// target is watched already is left alone.
pub proof fn a_link_that_is_gone_is_not_followed(
    a: &mut Watcher,
    target: Target,
    site: TargetSite,
    r: Reconcile,
)
    requires
        call_ensures(Watcher::reconcile_target, (a, target, site), r),
    ensures
        !(site is Watch) && target_path(old(a).entries(), target) is Some ==> r is Unwatch,
        !(site is Watch) && target_path(old(a).entries(), target) is None ==> r is Settled,
        site matches TargetSite::Watch(p) ==> (target_path(old(a).entries(), target) matches Some(q)
            && same_path(q, p@) ==> r is Settled && *final(a) == *old(a)),
{
}

/// The watcher knows the files that it was made for, and starts without watches.
pub proof fn a_watcher_has_its_files(
    config: String,
    rules: Option<String>,
    w: Watcher,
    c: Option<&str>,
    r: Option<&str>,
)
    requires
        call_ensures(Watcher::new, (config, rules), w),
        call_ensures(Watcher::path_of, (&w, Target::Config), c),
        call_ensures(Watcher::path_of, (&w, Target::Rules), r),
    ensures
        c matches Some(p) && p@ == config@,
        r is Some <==> rules is Some,
        rules matches Some(p) ==> (r matches Some(q) && q@ == p@),
        w.entries().len() == 0,
{
}

/// Forgetting a file takes away its watches and no other.
pub proof fn forgetting_a_file_keeps_the_other(w: &mut Watcher, target: Target)
    requires
        call_ensures(Watcher::forget, (w, target), ()),
    ensures
        final(w).entries() == without_target(old(w).entries(), target),
        final(w).masks() == old(w).masks(),
        final(w).path(target) == old(w).path(target),
{
}

/// What is done about a batch of events is what the events ask for, of the watches there are.
pub proof fn a_batch_is_acted_on(w: &Watcher, events: &[WatchEvent], r: Vec<WatchAction>)
    requires
        call_ensures(Watcher::run, (w, events), r),
    ensures
        r@.contains(WatchAction::ReloadRules) <==> any_changes(
            events@,
            w.entries(),
            Target::Rules,
        ) || (any_kills(events@, w.entries(), Target::Rules) && w.path(Target::Rules) is Some),
        r@.contains(WatchAction::ReportConfig) <==> any_changes(
            events@,
            w.entries(),
            Target::Config,
        ) || any_kills(events@, w.entries(), Target::Config),
        r@.contains(WatchAction::Rewatch(Target::Config)) <==> any_kills(
            events@,
            w.entries(),
            Target::Config,
        ),
        r@.contains(WatchAction::Reconcile(Target::Config)) <==> any_relinks(
            events@,
            w.entries(),
            Target::Config,
        ),
        r@.contains(WatchAction::Rewatch(Target::Rules)) <==> any_kills(
            events@,
            w.entries(),
            Target::Rules,
        ) && w.path(Target::Rules) is Some,
        r@.contains(WatchAction::Reconcile(Target::Rules)) <==> any_relinks(
            events@,
            w.entries(),
            Target::Rules,
        ) && w.path(Target::Rules) is Some,
        forall|i: int, j: int|
            0 <= i < j < r@.len() ==> rank(#[trigger] r@[i]) < rank(#[trigger] r@[j]),
{
    every_change_is_seen_to(events@, w.entries(), w.path(Target::Rules) is Some);
}

/// A directory is watched for creations once anything in it needs that, and stays so.
pub proof fn a_watch_only_widens(w: &mut Watcher, dir: &str, create: bool, r: bool)
    requires
        call_ensures(Watcher::ensure_watch, (w, dir, create), r),
    ensures
        create ==> r,
        mask_of(old(w).masks(), dir@) == Some(true) ==> r,
        r ==> create || mask_of(old(w).masks(), dir@) == Some(true),
        final(w).entries() == old(w).entries(),
{
}

/// The files are told apart by name.
pub proof fn the_files_are_told_apart(t: Target, u: Target, a: &'static str, b: &'static str)
    requires
        call_ensures(Target::label, (t,), a),
        call_ensures(Target::label, (u,), b),
    ensures
        a@ == b@ <==> t == u,
        t is Config ==> a@ == "config file"@,
{
    reveal_strlit("config file");
    reveal_strlit("MIME-rules file");
    assert("config file"@.len() == 11 && "MIME-rules file"@.len() == 15);
}

/// Where `n` links lead from `path`, where `link` says what the link at a path names.
pub open spec fn followed(
    link: spec_fn(Seq<char>) -> Option<Seq<char>>,
    path: Seq<char>,
    n: nat,
) -> Seq<char>
    decreases n,
{
    if n == 0 {
        path
    } else {
        let at = followed(link, path, (n - 1) as nat);
        link_leads_to(std_parent(at), link(at)->0)
    }
}

/// Following the links from a path leads to the first thing that is no link, or that is too many
/// links away; a path that is no link leads to itself.
pub proof fn links_are_followed_to_their_end<F: Fn(&str) -> Option<String>>(
    path: &str,
    read_link: F,
    r: String,
    link: spec_fn(Seq<char>) -> Option<Seq<char>>,
)
    requires
        call_ensures(resolve_link_target::<F>, (path, read_link), r),
        forall|p: &str, out: Option<String>| #[trigger]
            call_ensures(read_link, (p,), out) ==> opt_text(out) == link(p@),
    ensures
        link(path@) is None ==> r@ == path@,
        exists|n: nat|
            {
                &&& r@ == #[trigger] followed(link, path@, n)
                &&& n <= 8
                &&& n < 8 ==> link(r@) is None
                &&& forall|i: nat| i < n ==> link(#[trigger] followed(link, path@, i)) is Some
            },
{
    let links = choose|links: Seq<Seq<char>>| #[trigger]
        chain_read(read_link, path@, links) && r@ == chain_end(path@, links);
    assert forall|i: nat| i <= links.len() implies chain_end(path@, #[trigger] links.take(i as int))
        == followed(link, path@, i) by {
        lemma_chain(read_link, path@, links, link, i);
    }
    assert(links.take(links.len() as int) =~= links);
    let n = links.len();
    assert(r@ == followed(link, path@, n));
    assert forall|i: nat| i < n implies link(#[trigger] followed(link, path@, i)) is Some by {
        lemma_chain(read_link, path@, links, link, i);
        lemma_answer(read_link, chain_end(path@, links.take(i as int)), Some(links[i as int]), link);
    }
    if n < 8 {
        lemma_answer(read_link, chain_end(path@, links), None, link);
    }
    if n > 0 {
        assert(followed(link, path@, 0) == path@);
    }
}

proof fn lemma_answer<F: Fn(&str) -> Option<String>>(
    read: F,
    at: Seq<char>,
    answer: Option<Seq<char>>,
    link: spec_fn(Seq<char>) -> Option<Seq<char>>,
)
    requires
        link_read(read, at, answer),
        forall|p: &str, out: Option<String>| #[trigger]
            call_ensures(read, (p,), out) ==> opt_text(out) == link(p@),
    ensures
        link(at) == answer,
{
}

proof fn lemma_chain<F: Fn(&str) -> Option<String>>(
    read: F,
    path: Seq<char>,
    links: Seq<Seq<char>>,
    link: spec_fn(Seq<char>) -> Option<Seq<char>>,
    i: nat,
)
    requires
        chain_read(read, path, links),
        i <= links.len(),
        forall|p: &str, out: Option<String>| #[trigger]
            call_ensures(read, (p,), out) ==> opt_text(out) == link(p@),
    ensures
        chain_end(path, links.take(i as int)) == followed(link, path, i),
    decreases i,
{
    if i > 0 {
        let j = (i - 1) as nat;
        lemma_chain(read, path, links, link, j);
        assert(links.take(i as int).drop_last() =~= links.take(j as int));
        lemma_answer(read, chain_end(path, links.take(j as int)), Some(links[j as int]), link);
    }
}

/// Asking for more in a directory changes what is watched there and nowhere else; forgetting a
/// directory leaves nothing watched in it.
pub proof fn each_directory_is_watched_for_itself(
    masks: Seq<Mask>,
    dir: Seq<char>,
    create: bool,
    other: Seq<char>,
)
    ensures
        same_path(dir, dir) ==> mask_of(with_mask(masks, dir, create), dir) == Some(
            create || mask_of(masks, dir) == Some(true),
        ),
        mask_of(without_mask(masks, dir), dir) is None,
        !same_path(dir, other) && (forall|i: int|
            0 <= i < masks.len() && same_path((#[trigger] masks[i]).0, dir) ==> !same_path(
                masks[i].0,
                other,
            )) ==> mask_of(without_mask(masks, dir), other) == mask_of(masks, other),
    decreases masks.len(),
{
    let now = with_mask(masks, dir, create);
    assert(now.drop_last() =~= without_mask(masks, dir));
    if masks.len() > 0 {
        let rest = masks.drop_last();
        each_directory_is_watched_for_itself(rest, dir, create, other);
        let left = without_mask(masks, dir);
        if !same_path(masks.last().0, dir) {
            assert(left.drop_last() =~= without_mask(rest, dir));
            assert(left.last() == masks.last());
        }
        assert(masks[masks.len() - 1] == masks.last());
        assert forall|i: int|
            0 <= i < rest.len() && same_path((#[trigger] rest[i]).0, dir) && (forall|i: int|
                0 <= i < masks.len() && same_path((#[trigger] masks[i]).0, dir) ==> !same_path(
                    masks[i].0,
                    other,
                )) implies !same_path(rest[i].0, other) by {
            assert(rest[i] == masks[i]);
        }
    }
}

/// When a watch is replaced and no other has its descriptor, nothing is watched in its directory
/// any more; while another has it, all stays.
pub proof fn a_watch_that_is_gone_is_forgotten(
    masks: Seq<Mask>,
    entries: Seq<EntryView>,
    e: EntryView,
)
    ensures
        stale(entries, Some(e)) is Some ==> mask_of(
            masks_left(masks, entries, Some(e)),
            dir_of(std_parent(e.path)),
        ) is None,
        stale(entries, Some(e)) is None ==> masks_left(masks, entries, Some(e)) == masks,
        masks_left(masks, entries, None) == masks,
{
    let dir = dir_of(std_parent(e.path));
    each_directory_is_watched_for_itself(masks, dir, false, dir);
}

} // verus!
