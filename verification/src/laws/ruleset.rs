//! The life of a ruleset: how it is read, changed, saved and rolled back, call by call.

use crate::config::MimePolicy;
use crate::glob::covers;
use crate::glob::is_glob;
use crate::mime::{Snapshot, SnapshotError, SnapshotStep};
use crate::mime::{any_unseen, ensuring_twice_adds_nothing, recording_types_changes_no_answer, rules_in};
use crate::mime::{entries_in, removed_lines};
use crate::mime::{snapshot_step, FileRead, MimeRules, Persist, RulesFileState};
use crate::node_id::NodeId;
use crate::protocol::Version;
use crate::text::{opt_text, texts, trim};
use crate::toml::{no_fields, toml_document};
use crate::toml::TomlView;
use vstd::prelude::*;
use vstd::utf8::encode_utf8;

verus! {

/// A type that no key matches is unseen; recording leaves none of the types unseen, says whether
/// it had anything to record, and changes nothing where it had not.
pub proof fn recording_leaves_nothing_unseen(
    m: &mut MimeRules,
    mimes: &[String],
    before: bool,
    added: bool,
    after: bool,
)
    requires
        call_ensures(MimeRules::has_unseen, (&*old(m), mimes), before),
        call_ensures(MimeRules::ensure, (m, mimes), added),
        call_ensures(MimeRules::has_unseen, (&*final(m), mimes), after),
    ensures
        added == before,
        !after,
        added ==> final(m).pending(),
        !added ==> *final(m) == *old(m),
        final(m).policy() == old(m).policy(),
        final(m).file() == old(m).file(),
{
    let mimes = texts(mimes@);
    assert(before == any_unseen(rules_in(old(m).content()), mimes));
    assert(after == any_unseen(rules_in(final(m).content()), mimes));
    assert(added == any_unseen(rules_in(old(m).content()), mimes));
    if added {
        ensuring_twice_adds_nothing(
            old(m).content(),
            final(m).content(),
            mimes,
            crate::mime::word(old(m).policy() == MimePolicy::Allow),
        );
    }
}

/// Recording the types that are seen changes the answer for none.
pub proof fn recording_changes_no_answer(
    m: &mut MimeRules,
    mimes: &[String],
    added: bool,
    mime: &str,
    size: usize,
    before: bool,
    after: bool,
)
    requires
        forall|i: int| 0 <= i < mimes@.len() ==> !is_glob(#[trigger] mimes@[i]@),
        call_ensures(MimeRules::ensure, (m, mimes), added),
        call_ensures(MimeRules::allows, (&*old(m), mime, size), before),
        call_ensures(MimeRules::allows, (&*final(m), mime, size), after),
    ensures
        before == after,
{
    if added {
        assert forall|k: Seq<char>| texts(mimes@).contains(k) implies !#[trigger] is_glob(k) by {
            let i = choose|i: int| 0 <= i < texts(mimes@).len() && texts(mimes@)[i] == k;
            assert(mimes@[i]@ == k);
        }
        recording_types_changes_no_answer(
            old(m).content(),
            final(m).content(),
            texts(mimes@),
            old(m).policy(),
            mime@,
            size as nat,
        );
    }
}

/// A ruleset is written only if something is pending and there is a file, to that file; once it
/// is written nothing is pending, there is nothing more to write, and reading the file back is
/// no change. Where writing failed, everything stays as it was.
pub proof fn what_is_pending_is_written_once(
    m: &mut MimeRules,
    dirty: bool,
    step: Persist,
    written: bool,
    in_sync: bool,
    next: Persist,
    text: String,
    later: &mut MimeRules,
    applied: bool,
)
    requires
        call_ensures(MimeRules::is_dirty, (&*old(m),), dirty),
        call_ensures(MimeRules::persist, (&*old(m),), step),
        step matches Persist::Write { path, text: t } ==> t == text,
        call_ensures(MimeRules::persisted, (m, text, written), in_sync),
        call_ensures(MimeRules::persist, (&*final(m),), next),
        *old(later) == *final(m),
        call_ensures(MimeRules::reload_if_changed, (later, FileRead::Text(text)), applied),
    ensures
        step is InSync <==> !dirty,
        step is NoFile <==> dirty && old(m).file() is None,
        step matches Persist::Write { path, text: t } ==> old(m).file() == Some(path@)
            && old(m).renders_to(t@),
        in_sync == written,
        written ==> next is InSync && !applied && *final(later) == *final(m),
        written ==> final(m).content() == old(m).content(),
        !written ==> *final(m) == *old(m),
{
}

/// A text from elsewhere replaces the ruleset if it is TOML, and is then still to be written; any
/// other text changes nothing.
pub proof fn only_toml_replaces_a_ruleset(m: &mut MimeRules, text: String)
    requires
        call_ensures(MimeRules::replace_from, (m, text), ()),
    ensures
        toml_document(text@) matches Some(d) ==> final(m).content() == d && final(m).pending()
            && final(m).readable(),
        toml_document(text@) is None ==> *final(m) == *old(m),
        final(m).file() == old(m).file(),
        final(m).policy() == old(m).policy(),
{
}

/// A rules file that was changed by someone else is taken over, and then there is nothing to
/// write; a text that is no TOML, is what was last read or written, or is blank while there are
/// rules, changes nothing.
pub proof fn a_change_from_outside_is_taken_over(m: &mut MimeRules, text: String, applied: bool)
    requires
        call_ensures(MimeRules::reload_if_changed, (m, FileRead::Text(text)), applied),
        old(m).file() is Some,
    ensures
        old(m).on_disk() == Some(text@) ==> !applied,
        toml_document(text@) is None ==> !applied,
        trim(text@).len() == 0 && old(m).content().fields != no_fields() ==> !applied,
        old(m).on_disk() != Some(text@) && toml_document(text@) is Some && trim(text@).len() > 0
            ==> applied,
        old(m).on_disk() != Some(text@) && toml_document(text@) is Some && old(m).content().fields
            == no_fields() ==> applied,
        applied ==> Some(final(m).content()) == toml_document(text@) && !final(m).pending(),
        !applied ==> *final(m) == *old(m),
{
}

/// A file that is missing or cannot be read is no change, and neither is one that no ruleset has.
pub proof fn without_a_text_nothing_is_taken_over(m: &mut MimeRules, read: FileRead, applied: bool)
    requires
        call_ensures(MimeRules::reload_if_changed, (m, read), applied),
        !(read is Text) || old(m).file() is None,
    ensures
        !applied,
        *final(m) == *old(m),
{
}

/// A ruleset that is opened is the file's, with nothing to write; each thing that can be wrong
/// with the file is told apart. Without a path there is no file and no rule.
pub proof fn a_file_opens_as_what_it_is(
    path: Option<String>,
    unknown: MimePolicy,
    read: FileRead,
    r: Result<MimeRules, RulesFileState>,
)
    requires
        call_ensures(MimeRules::open, (path, unknown, read), r),
    ensures
        path is None ==> r is Ok,
        path is Some && read is NotFound ==> (r matches Err(RulesFileState::Missing)),
        path is Some && read is Failed ==> (r matches Err(RulesFileState::Unreadable(_))),
        path is Some ==> (read matches FileRead::Text(t) ==> {
            &&& trim(t@).len() == 0 ==> (r matches Err(RulesFileState::Empty))
            &&& trim(t@).len() > 0 && toml_document(t@) is None ==> (r matches Err(
                RulesFileState::Malformed(_),
            ))
            &&& trim(t@).len() > 0 && toml_document(t@) is Some ==> (r matches Ok(rules)
                && toml_document(t@) == Some(rules.content()) && rules.on_disk() == Some(t@))
        }),
        r matches Ok(rules) ==> !rules.pending() && rules.policy() == unknown && rules.file()
            == opt_text(path),
{
}

/// A file that could not be read is not written over: loading leaves nothing pending then. One
/// that is missing, empty or no TOML is to be written anew, and a good one is taken as it is.
pub proof fn loading_writes_over_nothing_it_could_not_read(
    path: String,
    unknown: MimePolicy,
    read: FileRead,
    rules: MimeRules,
)
    requires
        call_ensures(MimeRules::load, (Some(path), unknown, read), rules),
    ensures
        read is Failed ==> !rules.pending() && rules.content().fields == no_fields(),
        read is NotFound ==> rules.pending(),
        read matches FileRead::Text(t) ==> {
            &&& trim(t@).len() == 0 || toml_document(t@) is None ==> rules.pending()
            &&& trim(t@).len() > 0 && toml_document(t@) is Some ==> !rules.pending()
                && toml_document(t@) == Some(rules.content())
        },
        rules.policy() == unknown,
        rules.file() == Some(path@),
{
}

/// A snapshot for a given version records that version and keeps the rules; it is within the
/// limit, or it is refused and what was on disk comes back.
pub proof fn a_snapshot_has_the_version_it_was_asked_for(
    m: &mut MimeRules,
    version: Version,
    max_len: usize,
    step: SnapshotStep,
    own_id: NodeId,
    mtime_ms: u64,
    read: Version,
)
    requires
        call_ensures(MimeRules::snapshot_at, (m, version, max_len), step),
        call_ensures(MimeRules::version, (&*final(m), own_id, mtime_ms), read),
        version.stamp <= i64::MAX,
    ensures
        step matches SnapshotStep::Done(s) ==> s.version == version && encode_utf8(s.body@).len()
            <= max_len,
        step matches SnapshotStep::Write { path, snapshot } ==> {
            &&& snapshot.version == version
            &&& encode_utf8(snapshot.body@).len() <= max_len
            &&& old(m).file() == Some(path@)
            &&& final(m).renders_to(snapshot.body@)
        },
        !(step is Failed) ==> read == version && rules_in(final(m).content()) == rules_in(
            old(m).content(),
        ),
        step is Failed ==> (old(m).on_disk() matches Some(t) ==> (toml_document(t) matches Some(d)
            ==> final(m).content() == d && !final(m).pending())),
        step matches SnapshotStep::Failed(SnapshotError::TooLarge { len }) ==> len > max_len,
        step == SnapshotStep::Failed(SnapshotError::WriteFailed) ==> old(m).file() is None,
{
    let mid = choose|mid: MimeRules|
        {
            &&& #[trigger] crate::mime::same_but_for(
                old(m).content(),
                mid.content(),
                "clipmesh"@,
            )
            &&& crate::mime::records(mid.content(), version)
            &&& mid.pending()
            &&& mid.on_disk() == old(m).on_disk()
            &&& mid.file() == old(m).file()
            &&& snapshot_step(mid, *final(m), step, version, max_len)
        };
    crate::mime::stamping_keeps_the_rules(old(m).content(), mid.content());
    crate::mime::a_recorded_version_is_read_back(mid.content(), version, own_id, mtime_ms);
}

/// The first snapshot has the version that the ruleset has: the recorded one, which stays, or
/// that of the file's time, which is recorded.
pub proof fn the_first_snapshot_keeps_the_version(
    m: &mut MimeRules,
    own_id: NodeId,
    mtime_ms: u64,
    max_len: usize,
    step: SnapshotStep,
    before: Version,
)
    requires
        call_ensures(MimeRules::version, (&*old(m), own_id, mtime_ms), before),
        call_ensures(MimeRules::snapshot_baseline, (m, own_id, mtime_ms, max_len), step),
    ensures
        step matches SnapshotStep::Done(s) ==> s.version == before && encode_utf8(s.body@).len()
            <= max_len,
        step matches SnapshotStep::Write { path, snapshot } ==> snapshot.version == before
            && encode_utf8(snapshot.body@).len() <= max_len && old(m).file() == Some(path@),
        !(step is Failed) ==> rules_in(final(m).content()) == rules_in(old(m).content()),
        step matches SnapshotStep::Failed(SnapshotError::TooLarge { len }) ==> len > max_len,
        step == SnapshotStep::Failed(SnapshotError::WriteFailed) ==> old(m).file() is None,
{
    let version = before;
    if crate::toml::field(old(m).content(), "clipmesh"@, "version"@) is None {
        let mid = choose|mid: MimeRules|
            {
                &&& #[trigger] crate::mime::same_but_for(
                    old(m).content(),
                    mid.content(),
                    "clipmesh"@,
                )
                &&& crate::mime::records(mid.content(), version)
                &&& mid.pending()
                &&& mid.on_disk() == old(m).on_disk()
                &&& mid.file() == old(m).file()
                &&& snapshot_step(mid, *final(m), step, version, max_len)
            };
        crate::mime::stamping_keeps_the_rules(old(m).content(), mid.content());
    }
}

/// A snapshot counts when it was written: then it is what is on disk, and reading it back is no
/// change. One that could not be written is rolled back.
pub proof fn a_snapshot_counts_when_it_is_written(
    m: &mut MimeRules,
    snapshot: Snapshot,
    written: bool,
    r: Result<Snapshot, SnapshotError>,
    next: Persist,
    later: &mut MimeRules,
    applied: bool,
)
    requires
        call_ensures(MimeRules::finish_snapshot, (m, snapshot, written), r),
        call_ensures(MimeRules::persist, (&*final(m),), next),
        *old(later) == *final(m),
        call_ensures(
            MimeRules::reload_if_changed,
            (later, FileRead::Text(snapshot.body)),
            applied,
        ),
    ensures
        r is Ok <==> written,
        r matches Ok(s) ==> s == snapshot && next is InSync && !applied && final(m).content()
            == old(m).content(),
        r is Err ==> (old(m).on_disk() matches Some(t) ==> (toml_document(t) matches Some(d)
            ==> final(m).content() == d && next is InSync)),
{
}

/// Setting a rule for a key sets it and leaves every other entry as it was.
pub proof fn setting_a_rule_sets_that_rule(m: &mut MimeRules, key: &str, allow: bool, other: Seq<char>)
    requires
        call_ensures(MimeRules::set_rule, (m, key, allow), ()),
    ensures
        entries_in(final(m).content()).get(key@) == Some(
            TomlView::Text(
                if allow {
                    "allow"@
                } else {
                    "deny"@
                },
            ),
        ),
        other != key@ ==> entries_in(final(m).content()).get(other) == entries_in(
            old(m).content(),
        ).get(other),
        final(m).pending(),
        final(m).policy() == old(m).policy(),
        final(m).file() == old(m).file(),
{
}

/// Removing what a glob matches takes those entries away, and no other; where there was none,
/// nothing changes.
pub proof fn removing_takes_what_the_glob_matches(
    m: &mut MimeRules,
    pattern: &str,
    lines: Vec<String>,
    key: Seq<char>,
)
    requires
        call_ensures(MimeRules::remove_matching, (m, pattern), lines),
    ensures
        key != pattern@ && covers(pattern@, key) ==> entries_in(final(m).content()).get(key)
            is None,
        key == pattern@ || !covers(pattern@, key) ==> entries_in(final(m).content()).get(key)
            == entries_in(old(m).content()).get(key),
        lines@.len() == 0 ==> *final(m) == *old(m),
        lines@.len() > 0 ==> final(m).pending(),
{
    let (was, now) = (entries_in(old(m).content()), entries_in(final(m).content()));
    assert(now.dom().contains(key) <==> was.dom().contains(key) && !crate::mime::collapses(
        pattern@,
        key,
    ));
}

/// Applying a glob to a ruleset sets it and takes away the other entries that it matches; what it
/// took away is told.
pub proof fn applying_a_glob_sets_it(
    m: &mut MimeRules,
    pattern: &str,
    allow: bool,
    lines: Vec<String>,
    key: Seq<char>,
)
    requires
        call_ensures(MimeRules::apply_glob, (m, allow, pattern), lines),
    ensures
        entries_in(final(m).content()).get(pattern@) == Some(
            TomlView::Text(
                if allow {
                    "allow"@
                } else {
                    "deny"@
                },
            ),
        ),
        key != pattern@ && covers(pattern@, key) ==> entries_in(final(m).content()).get(key)
            is None,
        key != pattern@ && !covers(pattern@, key) ==> entries_in(final(m).content()).get(key)
            == entries_in(old(m).content()).get(key),
        final(m).pending(),
        removed_lines(texts(lines@), old(m).content(), pattern@, old(m).readable()),
{
    crate::laws::rules::a_glob_replaces_what_it_matches(
        entries_in(old(m).content()),
        pattern@,
        allow,
        key,
    );
}

/// A version that was set is the one that is read, whoever asks and whenever the file was
/// modified; no rule changes with it, and there is then a record of it.
pub proof fn a_version_that_is_set_is_read(
    m: &mut MimeRules,
    v: Version,
    own_id: NodeId,
    mtime_ms: u64,
    read: Version,
    recorded: bool,
)
    requires
        call_ensures(MimeRules::set_version, (m, v), ()),
        call_ensures(MimeRules::version, (&*final(m), own_id, mtime_ms), read),
        call_ensures(MimeRules::has_version_header, (&*final(m),), recorded),
        v.stamp <= i64::MAX,
    ensures
        read == v,
        recorded,
        rules_in(final(m).content()) == rules_in(old(m).content()),
        final(m).pending(),
{
    crate::mime::a_recorded_version_is_read_back(final(m).content(), v, own_id, mtime_ms);
    crate::mime::stamping_keeps_the_rules(old(m).content(), final(m).content());
}

/// A rollback brings back what is on disk, with nothing left to write.
pub proof fn a_rollback_leaves_what_is_on_disk(m: &mut MimeRules, next: Persist)
    requires
        call_ensures(MimeRules::revert_to_loaded, (m,), ()),
        call_ensures(MimeRules::persist, (&*final(m),), next),
    ensures
        old(m).on_disk() matches Some(t) ==> (toml_document(t) matches Some(d) ==> final(m).content() == d
            && next is InSync),
        old(m).on_disk() is None ==> *final(m) == *old(m),
{
}

} // verus!
