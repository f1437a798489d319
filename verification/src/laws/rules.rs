//! The rules file: which rule decides a type, what an edit changes, and what is reported.

use crate::config::{size_value, MimePolicy};
use crate::glob::{covers, literals, outranks, wildcards};
use crate::laws::cli::stands_in;
use crate::mime::{Relation, RuleReport, SnapshotError, SnapshotStep, Verdict};
use crate::mime::{candidate, collapses, decides, ensured, entries_in, entry_line};
use crate::mime::{globbed, is_change, is_report, known, overlap_in, overlaps_in};
use crate::mime::{removed_lines, report_on, reports, reverted, rule_in, rule_order, rules_in};
use crate::mime::{saved_lines, snapshot_step, spelled_in, unseen};
use crate::mime::{warning_for, warnings_in, CompiledRules, FileRead, MimeRule, MimeRules};
use crate::node_id::NodeId;
use crate::order::{ascending, before, distinct};
use crate::protocol::Version;
use crate::text::{has_suffix, quoted, texts, trim};
use crate::toml::{lines_text, lists_keys, lists_table, toml_document, TomlDoc, TomlView};
use vstd::prelude::*;
use vstd::utf8::encode_utf8;

verus! {

/// Of the usable rules that match a type, the one with the most literal characters decides;
/// of those, one with the fewest wildcards; of those, one that denies.
pub proof fn the_most_specific_rule_decides(
    rules: &MimeRules,
    mime: &str,
    size: usize,
    r: bool,
    key: Seq<char>,
)
    requires
        call_ensures(MimeRules::allows, (rules, mime, size), r),
        candidate(rules_in(rules.content()), key, mime@),
        forall|other: Seq<char>| #[trigger]
            candidate(rules_in(rules.content()), other, mime@) && other != key ==> {
                ||| literals(key) > literals(other)
                ||| literals(key) == literals(other) && wildcards(key) < wildcards(other)
                ||| literals(key) == literals(other) && wildcards(key) == wildcards(other)
                    && !rules_in(rules.content())[key]->0.allow && rules_in(
                    rules.content(),
                )[other]->0.allow
            },
    ensures
        r == (rules_in(rules.content())[key]->0.allow && (rules_in(
            rules.content(),
        )[key]->0.max_size matches Some(max) ==> size <= max)),
{
    let all = rules_in(rules.content());
    assert(decides(all, key, mime@));
    let chosen = choose|k: Seq<char>| decides(all, k, mime@);
    crate::mime::the_deciding_key_is_unique(all, key, chosen, mime@);
}

/// The key that decides a type has at least as many literal characters as every other usable
/// key that matches it; and no more wildcards than one with as many.
pub proof fn no_candidate_has_more_literals(
    rules: crate::mime::Rules,
    key: Seq<char>,
    other: Seq<char>,
    mime: Seq<char>,
)
    requires
        decides(rules, key, mime),
        candidate(rules, other, mime),
    ensures
        literals(key) >= literals(other),
        literals(key) == literals(other) ==> wildcards(key) <= wildcards(other),
        literals(key) == literals(other) && wildcards(key) == wildcards(other) && rules[key]->0.allow
            ==> rules[other]->0.allow,
{
}

/// Where no usable rule matches a type, the policy for unknown types decides, whatever the
/// size.
pub proof fn without_a_rule_the_policy_decides(
    rules: &MimeRules,
    mime: &str,
    size: usize,
    r: bool,
)
    requires
        call_ensures(MimeRules::allows, (rules, mime, size), r),
        forall|key: Seq<char>| !#[trigger] candidate(rules_in(rules.content()), key, mime@),
    ensures
        r == (rules.policy() == MimePolicy::Allow),
{
}

/// What may sync may sync when it is smaller.
pub proof fn what_is_smaller_may_sync_too(
    rules: &MimeRules,
    mime: &str,
    size: usize,
    less: usize,
    r: bool,
    s: bool,
)
    requires
        call_ensures(MimeRules::allows, (rules, mime, size), r),
        call_ensures(MimeRules::allows, (rules, mime, less), s),
        less <= size,
    ensures
        r ==> s,
{
}

/// A compiled ruleset answers as the ruleset that it was compiled from.
pub proof fn compiling_changes_no_answer(
    rules: &MimeRules,
    compiled: CompiledRules,
    mime: &str,
    size: usize,
    r: bool,
    s: bool,
)
    requires
        call_ensures(MimeRules::compile, (rules,), compiled),
        call_ensures(CompiledRules::allows, (&compiled, mime, size), r),
        call_ensures(MimeRules::allows, (rules, mime, size), s),
    ensures
        r == s,
{
}

/// A type is seen if some key of the rules matches it, whether its rule is usable or not.
pub proof fn a_type_is_seen_if_a_key_matches_it(d: TomlDoc, mime: Seq<char>)
    ensures
        known(rules_in(d), mime) <==> exists|key: Seq<char>|
            entries_in(d).dom().contains(key) && #[trigger] covers(key, mime),
        forall|key: Seq<char>| #[trigger]
            candidate(rules_in(d), key, mime) ==> known(rules_in(d), mime),
{
    assert(rules_in(d).dom() =~= entries_in(d).dom());
    if exists|key: Seq<char>| entries_in(d).dom().contains(key) && #[trigger] covers(key, mime) {
        let key = choose|key: Seq<char>|
            entries_in(d).dom().contains(key) && #[trigger] covers(key, mime);
        assert(rules_in(d).dom().contains(key));
    }
}

/// A string is a rule if it is `allow` or `deny`, and means that, without a cap.
pub proof fn a_word_is_a_rule(d: TomlDoc, m: Map<Seq<char>, TomlView>, key: Seq<char>, s: Seq<char>)
    requires
        d.fields.get("rules"@) == Some(TomlView::Section(m)),
        m.get(key) == Some(TomlView::Text(s)),
    ensures
        rules_in(d).dom().contains(key),
        s == "allow"@ ==> rules_in(d)[key] == Some(MimeRule { allow: true, max_size: None }),
        s == "deny"@ ==> rules_in(d)[key] == Some(MimeRule { allow: false, max_size: None }),
        s != "allow"@ && s != "deny"@ ==> rules_in(d)[key] is None,
{
    reveal_strlit("allow");
    reveal_strlit("deny");
    assert("allow"@.len() != "deny"@.len());
}

/// A table is a rule if its `rule` is `allow` or `deny`, and means that, with the size that
/// its `max` writes as the cap; a cap that is no size, or of no bytes, does not count.
pub proof fn a_table_is_a_rule(
    d: TomlDoc,
    m: Map<Seq<char>, TomlView>,
    key: Seq<char>,
    t: Map<Seq<char>, TomlView>,
)
    requires
        d.fields.get("rules"@) == Some(TomlView::Section(m)),
        m.get(key) == Some(TomlView::Inline(t)) || m.get(key) == Some(TomlView::Section(t)),
    ensures
        rules_in(d).dom().contains(key),
        rules_in(d)[key] is Some <==> {
            ||| t.get("rule"@) == Some(TomlView::Text("allow"@))
            ||| t.get("rule"@) == Some(TomlView::Text("deny"@))
        },
        rules_in(d)[key] matches Some(r) ==> {
            &&& r.allow <==> t.get("rule"@) == Some(TomlView::Text("allow"@))
            &&& !(t.get("max"@) matches Some(TomlView::Text(_))) ==> r.max_size is None
            &&& t.get("max"@) matches Some(TomlView::Text(max)) ==> match size_value(max) {
                Some(n) => if n == 0 {
                    r.max_size is None
                } else {
                    r.max_size is Some && r.max_size->0 == n as usize
                },
                None => r.max_size is None,
            }
        },
{
    reveal_strlit("allow");
    reveal_strlit("deny");
    assert("allow"@.len() != "deny"@.len());
}

/// Nothing else in the rules table is a rule: no number, flag, date or array.
pub proof fn nothing_else_is_a_rule(d: TomlDoc, m: Map<Seq<char>, TomlView>, key: Seq<char>)
    requires
        d.fields.get("rules"@) == Some(TomlView::Section(m)),
        m.dom().contains(key),
        !(m[key] is Text),
        !(m[key] is Inline),
        !(m[key] is Section),
    ensures
        rules_in(d).dom().contains(key),
        rules_in(d)[key] is None,
{
}

/// The rules are the entries of the table `[rules]` and nothing else: a document without
/// that table has none.
pub proof fn the_rules_are_those_of_the_table(d: TomlDoc, key: Seq<char>)
    ensures
        rules_in(d).dom().contains(key) <==> (d.fields.get("rules"@) matches Some(
            TomlView::Section(m),
        ) && m.dom().contains(key)),
{
}

/// Recording types leaves every one of them seen and no entry changed, and adds no other.
pub proof fn recording_adds_what_was_unseen(
    before: TomlDoc,
    after: TomlDoc,
    mimes: Seq<Seq<char>>,
    action: Seq<char>,
    key: Seq<char>,
)
    requires
        entries_in(after) == ensured(entries_in(before), rules_in(before), mimes, action),
    ensures
        mimes.contains(key) ==> known(rules_in(after), key),
        entries_in(before).dom().contains(key) ==> entries_in(after).get(key) == entries_in(
            before,
        ).get(key),
        entries_in(after).dom().contains(key) && !entries_in(before).dom().contains(key) ==> {
            &&& mimes.contains(key)
            &&& !known(rules_in(before), key)
            &&& entries_in(after)[key] == TomlView::Text(action)
        },
{
    if mimes.contains(key) {
        crate::mime::ensuring_twice_adds_nothing(before, after, mimes, action);
        assert(!unseen(rules_in(after), mimes, key));
    }
    if entries_in(before).dom().contains(key) && unseen(rules_in(before), mimes, key) {
        crate::glob::a_pattern_matches_itself(encode_utf8(key));
        assert(rules_in(before).dom().contains(key));
        assert(covers(key, key));
    }
}

/// Setting a glob leaves no other entry that it matches, keeps every entry that it does not
/// match as it was, and adds nothing but itself, with the word that was asked for.
pub proof fn a_glob_replaces_what_it_matches(
    entries: Map<Seq<char>, TomlView>,
    pattern: Seq<char>,
    allow: bool,
    key: Seq<char>,
)
    ensures
        globbed(entries, pattern, allow).get(pattern) == Some(
            TomlView::Text(
                if allow {
                    "allow"@
                } else {
                    "deny"@
                },
            ),
        ),
        key != pattern && covers(pattern, key) ==> !globbed(
            entries,
            pattern,
            allow,
        ).dom().contains(key),
        key != pattern && !covers(pattern, key) ==> globbed(entries, pattern, allow).get(key)
            == entries.get(key),
{
    let after = globbed(entries, pattern, allow);
    if key != pattern && !covers(pattern, key) {
        assert(after.dom().contains(key) == entries.dom().contains(key));
    }
}

/// What an edit removes is echoed: one line for each entry that the glob matches and that is
/// not the glob itself, in the order of the keys, each the key in quotes and the value.
pub proof fn each_removed_entry_is_echoed(
    lines: Seq<Seq<char>>,
    d: TomlDoc,
    pattern: Seq<char>,
    readable: bool,
    key: Seq<char>,
    text: Seq<char>,
)
    requires
        removed_lines(lines, d, pattern, readable),
        entries_in(d).dom().contains(key),
        entries_in(d)[key] is Text,
        key != pattern,
        covers(pattern, key),
        spelled_in(d).get(key) == Some(text),
    ensures
        lines.contains(trim(crate::mime::quoted_form(key) + " = "@ + text + "\n"@)),
{
    let keys = choose|keys: Seq<Seq<char>>|
        crate::mime::removed_as(keys, lines, d, pattern, readable);
    assert(crate::mime::removed_as(keys, lines, d, pattern, readable));
    assert(collapses(pattern, key));
    assert(keys.contains(key));
    let i = choose|i: int| 0 <= i < keys.len() && keys[i] == key;
    assert(crate::mime::is_echo(
        lines[i],
        keys[i],
        entries_in(d)[keys[i]],
        crate::mime::entry_text(d, keys[i]),
        readable,
    ));
    assert(lines[i] == trim(entry_line(key, text) + "\n"@));
}

/// Nothing is echoed where the glob matches no other entry, and no more lines come than it
/// matches entries.
pub proof fn nothing_else_is_echoed(
    lines: Seq<Seq<char>>,
    d: TomlDoc,
    pattern: Seq<char>,
    readable: bool,
)
    requires
        removed_lines(lines, d, pattern, readable),
    ensures
        exists|keys: Seq<Seq<char>>|
            {
                &&& keys.len() == lines.len()
                &&& distinct(keys)
                &&& ascending(keys)
                &&& forall|k: Seq<char>| #[trigger]
                    keys.contains(k) ==> entries_in(d).dom().contains(k) && k != pattern && covers(
                        pattern,
                        k,
                    )
            },
        (forall|k: Seq<char>|
            entries_in(d).dom().contains(k) && k != pattern ==> !#[trigger] covers(pattern, k))
            ==> lines.len() == 0,
{
    let keys = choose|keys: Seq<Seq<char>>|
        crate::mime::removed_as(keys, lines, d, pattern, readable);
    assert(crate::mime::removed_as(keys, lines, d, pattern, readable));
    assert forall|k: Seq<char>| #[trigger] keys.contains(k) implies entries_in(d).dom().contains(k)
        && k != pattern && covers(pattern, k) by {
        assert(collapses(pattern, k));
    }
    if lines.len() > 0 {
        assert(keys.contains(keys[0]));
        assert(covers(pattern, keys[0]));
    }
}

proof fn lemma_lines_split(lines: Seq<Seq<char>>, i: int)
    requires
        0 <= i < lines.len(),
    ensures
        lines_text(lines) == lines_text(lines.take(i)) + lines[i] + "\n"@ + lines_text(
            lines.skip(i + 1),
        ),
    decreases lines.len(),
{
    let rest = lines.drop_last();
    if i == lines.len() - 1 {
        assert(rest =~= lines.take(i));
        assert(lines.skip(i + 1) =~= Seq::<Seq<char>>::empty());
        assert(lines_text(lines) =~= lines_text(lines.take(i)) + lines[i] + "\n"@ + lines_text(
            lines.skip(i + 1),
        ));
    } else {
        lemma_lines_split(rest, i);
        assert(rest.take(i) =~= lines.take(i));
        let tail = lines.skip(i + 1);
        assert(tail.drop_last() =~= rest.skip(i + 1));
        assert(tail.last() == lines.last());
        assert(lines_text(lines) =~= lines_text(lines.take(i)) + lines[i] + "\n"@ + lines_text(tail));
    }
}

/// The rules are saved sorted by key, each with its value in a line of its own: of two rules,
/// the line of the one whose key comes first stands before that of the other.
pub proof fn the_saved_rules_are_sorted(
    rules: &MimeRules,
    text: String,
    a: Seq<char>,
    b: Seq<char>,
)
    requires
        call_ensures(MimeRules::body, (rules,), text),
        lists_table(rules.content(), "rules"@),
        entries_in(rules.content()).dom().contains(a),
        entries_in(rules.content()).dom().contains(b),
        before(a, b),
    ensures
        exists|x: Seq<char>, y: Seq<char>, z: Seq<char>|
            text@ == #[trigger] (x + (crate::mime::quoted_form(a) + " = "@ + spelled_in(
                rules.content(),
            )[a]) + "\n"@ + y + (crate::mime::quoted_form(b) + " = "@ + spelled_in(
                rules.content(),
            )[b]) + "\n"@ + z),
{
    let d = rules.content();
    let order = choose|order: Seq<Seq<char>>|
        {
            &&& #[trigger] lists_keys(order, entries_in(d))
            &&& ascending(order)
            &&& text@ == rules.surroundings().0 + lines_text(saved_lines(order, spelled_in(d)))
                + rules.surroundings().1
        };
    assert(order.contains(a) && order.contains(b));
    let i = choose|i: int| 0 <= i < order.len() && order[i] == a;
    let j = choose|j: int| 0 <= j < order.len() && order[j] == b;
    if j <= i {
        if j < i {
            assert(!before(order[i], order[j]));
        } else {
            crate::order::before_is_irreflexive(a);
        }
    }
    let lines = saved_lines(order, spelled_in(d));
    lemma_lines_split(lines, j);
    let front = lines.take(j);
    lemma_lines_split(front, i);
    let (la, lb) = (entry_line(a, spelled_in(d)[a]), entry_line(b, spelled_in(d)[b]));
    assert(lines[j] == lb);
    assert(front[i] == la);
    let x = rules.surroundings().0 + lines_text(front.take(i));
    let y = lines_text(front.skip(i + 1));
    let z = lines_text(lines.skip(j + 1)) + rules.surroundings().1;
    assert(text@ =~= x + la + "\n"@ + y + lb + "\n"@ + z);
}

/// A file without a version of its own has that of its modification time and this node.
pub proof fn without_a_record_the_time_counts(
    rules: &MimeRules,
    own_id: NodeId,
    mtime_ms: u64,
    v: Version,
)
    requires
        call_ensures(MimeRules::version, (rules, own_id, mtime_ms), v),
        crate::toml::field(rules.content(), "clipmesh"@, "version"@) is None
            || crate::toml::field(rules.content(), "clipmesh"@, "origin"@) is None,
    ensures
        v.stamp == mtime_ms,
        v.origin == own_id,
{
}

/// The version that a file records is the version it has: that many milliseconds, and the
/// node of that name.
pub proof fn a_record_is_taken_at_its_word(
    rules: &MimeRules,
    own_id: NodeId,
    mtime_ms: u64,
    v: Version,
    n: i64,
    origin: Seq<char>,
)
    requires
        call_ensures(MimeRules::version, (rules, own_id, mtime_ms), v),
        crate::toml::field(rules.content(), "clipmesh"@, "version"@) == Some(TomlView::Integer(n)),
        crate::toml::field(rules.content(), "clipmesh"@, "origin"@) == Some(TomlView::Text(origin)),
    ensures
        n >= 0 && crate::node_id::uuid_in(origin) is Some ==> v.stamp == n && Some(v.origin)
            == crate::node_id::uuid_in(origin),
        n < 0 || crate::node_id::uuid_in(origin) is None ==> v.stamp == mtime_ms && v.origin
            == own_id,
{
}

/// A snapshot that comes about is at the version that was asked for and within the limit; one
/// that is refused for its size is over it.
pub proof fn a_snapshot_keeps_within_the_limit(
    from: MimeRules,
    to: MimeRules,
    step: SnapshotStep,
    version: Version,
    max_len: usize,
)
    requires
        snapshot_step(from, to, step, version, max_len),
    ensures
        step matches SnapshotStep::Done(s) ==> {
            &&& s.version == version
            &&& encode_utf8(s.body@).len() <= max_len
            &&& from.renders_to(s.body@)
            &&& !from.pending()
            &&& to == from
        },
        step matches SnapshotStep::Write { path, snapshot } ==> {
            &&& snapshot.version == version
            &&& encode_utf8(snapshot.body@).len() <= max_len
            &&& from.renders_to(snapshot.body@)
            &&& from.pending()
            &&& from.file() == Some(path@)
            &&& to == from
        },
        step matches SnapshotStep::Failed(SnapshotError::TooLarge { len }) ==> len > max_len
            && reverted(from, to),
        step == SnapshotStep::Failed(SnapshotError::WriteFailed) ==> from.file() is None
            && reverted(from, to),
{
}

/// A rollback brings back what the text that was last read or written means, with nothing
/// left to write; rolling back again changes nothing.
pub proof fn a_rollback_brings_back_the_file(
    before: MimeRules,
    after: MimeRules,
    again: MimeRules,
    text: Seq<char>,
    d: TomlDoc,
)
    requires
        before.on_disk() == Some(text),
        toml_document(text) == Some(d),
        reverted(before, after),
        after.on_disk() == before.on_disk(),
        reverted(after, again),
    ensures
        after.content() == d,
        !after.pending(),
        again.content() == after.content(),
        !again.pending(),
{
}

/// A new text of the rules file is taken over if it is TOML and not blank; a text that is no
/// TOML, or a file that cannot be read, is not.
pub proof fn a_new_text_is_a_change(rules: MimeRules, text: String)
    requires
        rules.file() is Some,
        rules.on_disk() != Some(text@),
    ensures
        trim(text@).len() > 0 && toml_document(text@) is Some ==> is_change(
            rules,
            FileRead::Text(text),
        ),
        toml_document(text@) is None ==> !is_change(rules, FileRead::Text(text)),
        !is_change(rules, FileRead::NotFound),
{
}

/// The report has one entry for each rule, in the order of the keys, which says what the rule
/// decides and the cap that applies to it.
pub proof fn the_report_has_every_rule(
    rules: &MimeRules,
    r: Vec<RuleReport>,
    key: Seq<char>,
)
    requires
        call_ensures(MimeRules::rules_report, (rules,), r),
    ensures
        entries_in(rules.content()).dom().contains(key) <==> exists|i: int|
            0 <= i < r@.len() && #[trigger] r@[i].key@ == key,
        forall|i: int, j: int|
            0 <= i < j < r@.len() ==> before(#[trigger] r@[i].key@, #[trigger] r@[j].key@),
        forall|i: int|
            0 <= i < r@.len() ==> ({
                let rule = rules_in(rules.content())[#[trigger] r@[i].key@];
                &&& r@[i].verdict == Verdict::Invalid <==> rule is None
                &&& r@[i].verdict == Verdict::Allow <==> (rule matches Some(x) && x.allow)
                &&& r@[i].verdict == Verdict::Deny <==> (rule matches Some(x) && !x.allow)
                &&& rule matches Some(x) ==> (r@[i].max is Some <==> x.max_size is Some)
                &&& r@[i].max matches Some(m) ==> size_value(m@) is Some && (rule matches Some(x)
                    ==> x.max_size is Some && x.max_size->0 == size_value(m@)->0 as usize)
            }),
{
    let entries = entries_in(rules.content());
    let keys = choose|keys: Seq<Seq<char>>| is_report(reports(r@), entries, keys);
    let views = reports(r@);
    assert(is_report(views, entries, keys));
    assert(views.len() == keys.len());
    assert forall|i: int| 0 <= i < r@.len() implies views[i] == report_on(entries, keys, keys[i])
        && #[trigger] r@[i].key@ == keys[i] by {
        assert(views[i] == r@[i]@);
    }
    if entries.dom().contains(key) {
        assert(keys.contains(key));
        let i = choose|i: int| 0 <= i < keys.len() && keys[i] == key;
        assert(r@[i].key@ == key);
    }
    if exists|i: int| 0 <= i < r@.len() && #[trigger] r@[i].key@ == key {
        let i = choose|i: int| 0 <= i < r@.len() && #[trigger] r@[i].key@ == key;
        assert(keys.contains(keys[i]));
    }
    assert forall|i: int, j: int| 0 <= i < j < r@.len() implies before(
        #[trigger] r@[i].key@,
        #[trigger] r@[j].key@,
    ) by {
        assert(keys[i] != keys[j] && !before(keys[j], keys[i]));
        crate::order::before_is_total(keys[i], keys[j]);
    }
    assert forall|i: int| 0 <= i < r@.len() implies ({
        let rule = rules_in(rules.content())[#[trigger] r@[i].key@];
        &&& r@[i].verdict == Verdict::Invalid <==> rule is None
        &&& r@[i].verdict == Verdict::Allow <==> (rule matches Some(x) && x.allow)
        &&& r@[i].verdict == Verdict::Deny <==> (rule matches Some(x) && !x.allow)
        &&& rule matches Some(x) ==> (r@[i].max is Some <==> x.max_size is Some)
        &&& r@[i].max matches Some(m) ==> size_value(m@) is Some && (rule matches Some(x)
            ==> x.max_size is Some && x.max_size->0 == size_value(m@)->0 as usize)
    }) by {
        assert(views[i] == r@[i]@);
        assert(keys.contains(keys[i]));
        assert(rules_in(rules.content())[keys[i]] == rule_in(entries[keys[i]]));
    }
}

/// At an entry the report lists the other globs with usable rules that match its key, and no
/// other entry.
pub proof fn the_report_lists_every_other_glob(
    entries: Map<Seq<char>, TomlView>,
    keys: Seq<Seq<char>>,
    e: Seq<char>,
    o: Seq<char>,
)
    requires
        lists_keys(keys, entries),
    ensures
        (exists|i: int|
            0 <= i < overlaps_in(entries, e, keys).len() && #[trigger] overlaps_in(
                entries,
                e,
                keys,
            )[i].key == o) <==> {
            &&& entries.dom().contains(o)
            &&& o != e
            &&& o.contains('*') || o.contains('?')
            &&& covers(o, e)
            &&& rule_in(entries[o]) is Some
        },
    decreases keys.len(),
{
    crate::glob::a_glob_holds_a_star_or_a_question_mark(o);
    lemma_overlaps(entries, keys, e, o);
}

proof fn lemma_overlaps(
    entries: Map<Seq<char>, TomlView>,
    keys: Seq<Seq<char>>,
    e: Seq<char>,
    o: Seq<char>,
)
    ensures
        (exists|i: int|
            0 <= i < overlaps_in(entries, e, keys).len() && #[trigger] overlaps_in(
                entries,
                e,
                keys,
            )[i].key == o) <==> keys.contains(o) && overlap_in(entries, e, o) is Some,
    decreases keys.len(),
{
    if keys.len() > 0 {
        let (rest, k) = (keys.drop_last(), keys.last());
        lemma_overlaps(entries, rest, e, o);
        let (all, some) = (overlaps_in(entries, e, keys), overlaps_in(entries, e, rest));
        assert(keys.contains(o) <==> rest.contains(o) || k == o) by {
            if keys.contains(o) {
                let i = choose|i: int| 0 <= i < keys.len() && keys[i] == o;
                if i < rest.len() {
                    assert(rest[i] == o);
                }
            }
            if rest.contains(o) {
                let i = choose|i: int| 0 <= i < rest.len() && rest[i] == o;
                assert(keys[i] == o);
            }
            assert(keys[keys.len() - 1] == k);
        }
        if exists|i: int| 0 <= i < some.len() && #[trigger] some[i].key == o {
            let i = choose|i: int| 0 <= i < some.len() && #[trigger] some[i].key == o;
            assert(all[i].key == o);
        }
        if exists|i: int| 0 <= i < all.len() && #[trigger] all[i].key == o {
            let i = choose|i: int| 0 <= i < all.len() && #[trigger] all[i].key == o;
            if i < some.len() {
                assert(some[i].key == o);
            }
        }
        if k == o && overlap_in(entries, e, o) is Some {
            assert(all[some.len() as int].key == o);
        }
    }
}

/// A glob that is reported at an entry is redundant to it if both decide alike; if they do
/// not, the entry overrides it where the entry takes precedence, and else is overridden; and
/// where the entry is no usable rule, the glob decides instead.
pub proof fn the_report_says_who_wins(
    entries: Map<Seq<char>, TomlView>,
    e: Seq<char>,
    o: Seq<char>,
)
    requires
        overlap_in(entries, e, o) is Some,
    ensures
        ({
            let (said, ours, theirs) = (
                overlap_in(entries, e, o)->0,
                rule_in(entries[e]),
                rule_in(entries[o])->0,
            );
            &&& said.verdict == Verdict::Allow <==> theirs.allow
            &&& said.verdict == Verdict::Deny <==> !theirs.allow
            &&& said.relation == Relation::DecidesInstead <==> ours is None
            &&& ours matches Some(m) ==> {
                &&& said.relation == Relation::Redundant <==> m.allow == theirs.allow
                &&& said.relation == Relation::Overrides ==> outranks(e, m.allow, o, theirs.allow)
                &&& said.relation == Relation::OverriddenBy ==> !outranks(
                    e,
                    m.allow,
                    o,
                    theirs.allow,
                )
            }
        }),
{
}

/// An entry deserves a warning if and only if something about it does not apply: it is no
/// usable rule, or it writes a cap that is not used.
pub proof fn what_does_not_apply_is_warned_of(mime: Seq<char>, v: TomlView, path: Seq<char>)
    ensures
        rule_in(v) is None ==> warning_for(mime, v, path) is Some,
        rule_in(v) matches Some(r) ==> (warning_for(mime, v, path) is Some <==> r.max_size is None
            && !(v is Text) && crate::toml::member(v, "max"@) matches Some(TomlView::Text(_))),
{
    reveal_strlit("allow");
    reveal_strlit("deny");
}

/// A warning names the entry and the file.
pub proof fn a_warning_names_the_entry_and_the_file(mime: Seq<char>, v: TomlView, path: Seq<char>)
    requires
        warning_for(mime, v, path) is Some,
    ensures
        exists|x: Seq<char>, y: Seq<char>|
            warning_for(mime, v, path)->0 == #[trigger] (x + quoted(mime) + " in "@ + path + y),
{
    let w = warning_for(mime, v, path)->0;
    let (a, b, c) = (
        "MIME rules: ignoring "@,
        " \u{2014} value must be \"allow\"/\"deny\" or { rule = ..., max = ... }"@,
        " \u{2014} rule must be \"allow\" or \"deny\", got "@,
    );
    match crate::mime::rule_fields_in(v) {
        None => {
            assert(w =~= a + quoted(mime) + " in "@ + path + b);
        },
        Some((rule, max)) => {
            if crate::mime::rule_from(rule, None) is None {
                assert(w =~= a + quoted(mime) + " in "@ + path + (c + quoted(rule)));
            } else {
                let x = "MIME rules: ignoring the max-size "@ + quoted(max->0) + " on "@;
                assert(w =~= x + quoted(mime) + " in "@ + path + " (the rule still applies)"@);
            }
        },
    }
}

/// A warning quotes what cannot be used: the word that is no rule, or the size that is none.
pub proof fn a_warning_quotes_what_is_wrong(
    mime: Seq<char>,
    m: Map<Seq<char>, TomlView>,
    word: Seq<char>,
    max: Seq<char>,
    path: Seq<char>,
)
    requires
        m.get("rule"@) == Some(TomlView::Text(word)),
        m.get("max"@) == Some(TomlView::Text(max)),
    ensures
        word != "allow"@ && word != "deny"@ ==> (warning_for(mime, TomlView::Inline(m), path)
            matches Some(w) && has_suffix(w, quoted(word))),
        (word == "allow"@ || word == "deny"@) && size_value(max) is None ==> (warning_for(
            mime,
            TomlView::Inline(m),
            path,
        ) matches Some(w) && has_suffix(w, " (the rule still applies)"@) && stands_in(
            quoted(max),
            w,
        )),
        word != "allow"@ && word != "deny"@ ==> (warning_for(mime, TomlView::Text(word), path)
            matches Some(w) && has_suffix(w, quoted(word))),
{
    let v = TomlView::Inline(m);
    if let Some(w) = warning_for(mime, v, path) {
        let q = quoted(word);
        if word != "allow"@ && word != "deny"@ {
            assert(w.skip(w.len() - q.len()) =~= q);
        } else if size_value(max) is None {
            let x = "MIME rules: ignoring the max-size "@;
            let y = quoted(max);
            let z = " on "@ + quoted(mime) + " in "@ + path + " (the rule still applies)"@;
            assert(w =~= x + y + z);
            crate::laws::cli::lemma_stands_in(x, y, z);
            let end = " (the rule still applies)"@;
            assert(w.skip(w.len() - end.len()) =~= end);
        }
    }
    if let Some(w) = warning_for(mime, TomlView::Text(word), path) {
        let q = quoted(word);
        assert(w.skip(w.len() - q.len()) =~= q);
    }
}

/// The warnings of two runs of keys are those of the first and then those of the second: each
/// entry has its own, in the order of the entries.
pub proof fn warnings_come_entry_by_entry(
    entries: Map<Seq<char>, TomlView>,
    a: Seq<Seq<char>>,
    k: Seq<char>,
    b: Seq<Seq<char>>,
    path: Seq<char>,
)
    ensures
        warnings_in(entries, a + seq![k] + b, path) == warnings_in(entries, a, path) + (
        match warning_for(k, entries[k], path) {
            Some(w) => seq![w],
            None => Seq::empty(),
        }) + warnings_in(entries, b, path),
    decreases b.len(),
{
    let all = a + seq![k] + b;
    let mid = match warning_for(k, entries[k], path) {
        Some(w) => seq![w],
        None => Seq::empty(),
    };
    if b.len() == 0 {
        assert(all.drop_last() =~= a);
        assert(warnings_in(entries, all, path) =~= warnings_in(entries, a, path) + mid
            + warnings_in(entries, b, path));
    } else {
        warnings_come_entry_by_entry(entries, a, k, b.drop_last(), path);
        assert(all.drop_last() =~= a + seq![k] + b.drop_last());
        assert(all.last() == b.last());
        assert(warnings_in(entries, all, path) =~= warnings_in(entries, a, path) + mid
            + warnings_in(entries, b, path));
    }
}

/// The warnings about a ruleset are those about its entries, in the order of the document.
pub proof fn the_warnings_are_about_the_entries(rules: &MimeRules, path: &str, r: Vec<String>)
    requires
        call_ensures(MimeRules::warn_invalid_rules, (rules, path), r),
    ensures
        texts(r@) == warnings_in(
            entries_in(rules.content()),
            rule_order(rules.content()),
            path@,
        ),
        rule_order(rules.content()).len() == 0 ==> r@.len() == 0,
{
    assert(texts(r@).len() == r@.len());
}

} // verus!
